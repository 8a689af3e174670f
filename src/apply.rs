//! Replay of decoded records against an in-memory map from page identity to
//! page image.
use vstd::prelude::*;

use crate::framing::le_u16_at;
use crate::heap::HeapOperation;
use crate::inspect::page::max_offset_number;
use crate::xlog_block::{PageId, XLBData, XLBImage, BKPIMAGE_IS_COMPRESSED};
use crate::xlog_record::{Operation, RmgrId, XLogRecord};

verus! {

/// Size of a page image in bytes.
pub const PAGE_BYTES: usize = 8192;

#[derive(Clone, Debug)]
pub struct ApplyError {
    pub message: String,
}

/// An 8 KiB page image.
#[derive(Clone, Debug)]
pub struct Page {
    pub data: Vec<u8>,
}

/// `p` with `b` written over it from position `pos`.
pub open spec fn write_bytes(p: Seq<u8>, pos: int, b: Seq<u8>) -> Seq<u8> {
    p.subrange(0, pos) + b + p.subrange(pos + b.len(), p.len() as int)
}

/// The two little-endian bytes of `v`.
pub open spec fn u16_le(v: int) -> Seq<u8> {
    seq![(v % 0x100) as u8, (v / 0x100 % 0x100) as u8]
}

/// The four little-endian bytes of `v`.
pub open spec fn u32_le(v: int) -> Seq<u8> {
    seq![
        (v % 0x100) as u8,
        (v / 0x100 % 0x100) as u8,
        (v / 0x1_0000 % 0x100) as u8,
        (v / 0x100_0000 % 0x100) as u8,
    ]
}

/// Writes `b` over `v` from position `pos`.
fn write_into(v: &mut Vec<u8>, pos: usize, b: &[u8])
    requires
        pos + b@.len() <= old(v)@.len(),
    ensures
        final(v)@ == write_bytes(old(v)@, pos as int, b@),
{
    let len = v.len();
    let mut k: usize = 0;
    while k < b.len()
        invariant
            len == old(v)@.len(),
            pos + b@.len() <= v@.len(),
            v@.len() == old(v)@.len(),
            k <= b@.len(),
            v@ == old(v)@.subrange(0, pos as int) + b@.subrange(0, k as int) + old(v)@.subrange(
                pos + k,
                old(v)@.len() as int,
            ),
        decreases b@.len() - k,
    {
        v.set(pos + k, b[k]);
        proof {
            assert(v@ =~= old(v)@.subrange(0, pos as int) + b@.subrange(0, k + 1) + old(v)@.subrange(
                pos + k + 1,
                old(v)@.len() as int,
            ));
        }
        k = k + 1;
    }
    assert(b@.subrange(0, b@.len() as int) =~= b@);
}

fn write_u16(v: &mut Vec<u8>, pos: usize, val: u16)
    requires
        pos + 2 <= old(v)@.len(),
    ensures
        final(v)@ == write_bytes(old(v)@, pos as int, u16_le(val as int)),
{
    let bytes = [(val % 0x100) as u8, (val / 0x100) as u8];
    assert(bytes@ =~= u16_le(val as int));
    write_into(v, pos, &bytes);
}

fn write_u32(v: &mut Vec<u8>, pos: usize, val: u32)
    requires
        pos + 4 <= old(v)@.len(),
    ensures
        final(v)@ == write_bytes(old(v)@, pos as int, u32_le(val as int)),
{
    let bytes = [
        (val % 0x100) as u8,
        (val / 0x100 % 0x100) as u8,
        (val / 0x1_0000 % 0x100) as u8,
        (val / 0x100_0000 % 0x100) as u8,
    ];
    assert(bytes@ =~= u32_le(val as int));
    write_into(v, pos, &bytes);
}

/// The image can be restored: it is not compressed, its hole lies within it,
/// and image and hole together make a page.
pub open spec fn image_restorable(img: XLBImage) -> bool {
    &&& img.bimg_info & BKPIMAGE_IS_COMPRESSED == 0
    &&& img.hole_offset <= img.bkp_image@.len()
    &&& img.bkp_image@.len() + img.hole_length == PAGE_BYTES
}

/// The page that an image restores: the bytes before the hole, `hole_length`
/// zero bytes, then the rest of the image.
pub open spec fn restored_image(img: XLBImage) -> Seq<u8> {
    let b = img.bkp_image@;
    b.subrange(0, img.hole_offset as int) + Seq::new(img.hole_length as nat, |k: int| 0u8)
        + b.subrange(img.hole_offset as int, b.len() as int)
}

/// Materializes the page that a full-page image holds, putting back the zero
/// bytes of its hole.
pub fn restore_image(img: &XLBImage) -> (r: Result<Vec<u8>, ApplyError>)
    ensures
        r is Ok <==> image_restorable(*img),
        img.bimg_info & BKPIMAGE_IS_COMPRESSED != 0 ==> (r matches Err(e) && e.message@
            == "compression not implemented"@),
        r matches Ok(page) ==> {
            &&& page@ == restored_image(*img)
            &&& page@.len() == PAGE_BYTES
            &&& forall|k: int|
                img.hole_offset <= k < img.hole_offset + img.hole_length ==> page@[k] == 0
        },
{
    if img.bimg_info & BKPIMAGE_IS_COMPRESSED != 0 {
        let message = "compression not implemented".to_owned();
        return Err(ApplyError { message });
    }
    let n = img.bkp_image.len();
    let off = img.hole_offset as usize;
    if off > n || n > PAGE_BYTES || img.hole_length as usize != PAGE_BYTES - n {
        return Err(ApplyError { message: "image and hole do not make a page".to_owned() });
    }
    let mut page: Vec<u8> = Vec::new();
    let mut k: usize = 0;
    while k < off
        invariant
            k <= off <= n == img.bkp_image@.len(),
            page@ == img.bkp_image@.subrange(0, k as int),
        decreases off - k,
    {
        page.push(img.bkp_image[k]);
        assert(page@ =~= img.bkp_image@.subrange(0, k + 1));
        k = k + 1;
    }
    let mut h: usize = 0;
    while h < img.hole_length as usize
        invariant
            off <= n == img.bkp_image@.len(),
            h <= img.hole_length,
            page@ == img.bkp_image@.subrange(0, off as int) + Seq::new(h as nat, |j: int| 0u8),
        decreases img.hole_length - h,
    {
        page.push(0u8);
        assert(page@ =~= img.bkp_image@.subrange(0, off as int) + Seq::new((h + 1) as nat, |j: int| 0u8));
        h = h + 1;
    }
    let ghost front = page@;
    k = off;
    while k < n
        invariant
            off <= k <= n == img.bkp_image@.len(),
            page@ == front + img.bkp_image@.subrange(off as int, k as int),
        decreases n - k,
    {
        page.push(img.bkp_image[k]);
        assert(page@ =~= front + img.bkp_image@.subrange(off as int, k + 1));
        k = k + 1;
    }
    proof {
        let z = Seq::new(img.hole_length as nat, |j: int| 0u8);
        assert forall|j: int| off <= j < off + img.hole_length implies page@[j] == 0 by {
            assert(page@[j] == z[j - off]);
        }
    }
    Ok(page)
}


/// `pd_lower` of page `p` after line pointer `off` (1-based) is written.
pub open spec fn insert_new_lower(p: Seq<u8>, off: int) -> int {
    if off > max_offset_number(le_u16_at(p, 12)) {
        24 + 4 * off
    } else {
        le_u16_at(p, 12) as int
    }
}

/// A tuple of `tlen` bytes can be added to page `p` under line pointer `off`
/// (1-based): the pointer exists or is the next one, and the tuple and the
/// line-pointer array fit in the free space.
pub open spec fn insert_fits(p: Seq<u8>, off: int, tlen: int) -> bool {
    let upper = le_u16_at(p, 14) as int;
    &&& p.len() == PAGE_BYTES
    &&& 1 <= off <= max_offset_number(le_u16_at(p, 12)) + 1
    &&& 0 < tlen
    &&& upper <= PAGE_BYTES
    &&& insert_new_lower(p, off) + tlen <= upper
}

/// Page `p` after tuple `t` is placed just below `pd_upper` and line pointer
/// `off` is set to it: `pd_upper` moves down by the tuple's length, and
/// `pd_lower` grows when the line pointer is a new one.
pub open spec fn inserted_page(p: Seq<u8>, off: int, t: Seq<u8>) -> Seq<u8> {
    let new_upper = le_u16_at(p, 14) - t.len();
    let lp = new_upper + 0x8000 + t.len() * 0x2_0000;
    write_bytes(
        write_bytes(
            write_bytes(write_bytes(p, new_upper, t), 24 + 4 * (off - 1), u32_le(lp)),
            14,
            u16_le(new_upper),
        ),
        12,
        u16_le(insert_new_lower(p, off)),
    )
}

/// Adds tuple `t` to `page` under line pointer `off` (1-based).
pub fn insert_tuple(page: &Vec<u8>, off: u16, t: &[u8]) -> (r: Option<Vec<u8>>)
    requires
        page@.len() == PAGE_BYTES,
    ensures
        r is Some <==> insert_fits(page@, off as int, t@.len() as int),
        r matches Some(v) ==> v@ == inserted_page(page@, off as int, t@),
{
    let lower = crate::framing::read_u16(page.as_slice(), 12);
    let upper = crate::framing::read_u16(page.as_slice(), 14) as usize;
    let nlp = crate::inspect::page_inspect::page_get_max_offset_number(lower);
    let off = off as usize;
    if off < 1 || off > nlp + 1 {
        return None;
    }
    let tlen = t.len();
    if tlen == 0 || upper > PAGE_BYTES {
        return None;
    }
    let new_lower: usize = if off > nlp { 24 + 4 * off } else { lower as usize };
    if tlen > upper || new_lower > upper - tlen {
        return None;
    }
    let new_upper = upper - tlen;
    let mut v = page.clone();
    write_into(&mut v, new_upper, t);
    write_u32(&mut v, 24 + 4 * (off - 1), (new_upper + 0x8000 + tlen * 0x2_0000) as u32);
    write_u16(&mut v, 14, new_upper as u16);
    write_u16(&mut v, 12, new_lower as u16);
    Some(v)
}


/// The in-memory page map: page identity to current page image.
pub struct PageMapping {
    pages: Vec<(PageId, Page)>,
}

impl View for PageMapping {
    type V = Map<PageId, Seq<u8>>;

    closed spec fn view(&self) -> Map<PageId, Seq<u8>> {
        Map::new(
            |id: PageId| exists|k: int| 0 <= k < self.pages@.len() && self.pages@[k].0 == id,
            |id: PageId|
                self.pages@[choose|k: int| 0 <= k < self.pages@.len() && self.pages@[k].0 == id].1.data@,
        )
    }
}

impl PageMapping {
    /// Each page is held once, and every image is a whole page.
    pub closed spec fn wf(&self) -> bool {
        &&& forall|j: int, k: int|
            0 <= j < k < self.pages@.len() ==> #[trigger] self.pages@[j].0 != #[trigger] self.pages@[k].0
        &&& forall|k: int| 0 <= k < self.pages@.len() ==> #[trigger] self.pages@[k].1.data@.len() == PAGE_BYTES
    }

    proof fn lemma_view_at(&self, k: int)
        requires
            self.wf(),
            0 <= k < self.pages@.len(),
        ensures
            self@.contains_key(self.pages@[k].0),
            self@[self.pages@[k].0] == self.pages@[k].1.data@,
    {
        let id = self.pages@[k].0;
        assert(exists|j: int| 0 <= j < self.pages@.len() && self.pages@[j].0 == id);
        let j = choose|j: int| 0 <= j < self.pages@.len() && self.pages@[j].0 == id;
        if j != k {
            if j < k {
                assert(self.pages@[j].0 != self.pages@[k].0);
            } else {
                assert(self.pages@[k].0 != self.pages@[j].0);
            }
        }
    }

    proof fn lemma_pages_are_whole(&self)
        requires
            self.wf(),
        ensures
            forall|id: PageId| #[trigger] self@.contains_key(id) ==> self@[id].len() == PAGE_BYTES,
    {
        assert forall|id: PageId| #[trigger] self@.contains_key(id) implies self@[id].len() == PAGE_BYTES by {
            let k = choose|k: int| 0 <= k < self.pages@.len() && self.pages@[k].0 == id;
            self.lemma_view_at(k);
        }
    }

    pub fn new() -> (r: PageMapping)
        ensures
            r.wf(),
            r@ == Map::<PageId, Seq<u8>>::empty(),
    {
        let r = PageMapping { pages: Vec::new() };
        assert(r@ =~= Map::<PageId, Seq<u8>>::empty());
        r
    }

    /// The current image of page `id`, if the map holds one.
    pub fn get_page(&self, id: &PageId) -> (r: Option<&Page>)
        requires
            self.wf(),
        ensures
            r is Some <==> self@.contains_key(*id),
            r matches Some(p) ==> p.data@ == self@[*id],
    {
        let mut k: usize = 0;
        while k < self.pages.len()
            invariant
                self.wf(),
                k <= self.pages@.len(),
                forall|j: int| 0 <= j < k ==> self.pages@[j].0 != *id,
            decreases self.pages@.len() - k,
        {
            if self.pages[k].0 == *id {
                proof {
                    self.lemma_view_at(k as int);
                }
                return Some(&self.pages[k].1);
            }
            k = k + 1;
        }
        None
    }

    /// Inserts or replaces the image of page `id`.
    fn set_page(&mut self, id: PageId, data: Vec<u8>)
        requires
            old(self).wf(),
            data@.len() == PAGE_BYTES,
        ensures
            final(self).wf(),
            final(self)@ == old(self)@.insert(id, data@),
    {
        let ghost old_map = self@;
        let ghost old_pages = self.pages@;
        proof {
            assert forall|i: int| 0 <= i < old_pages.len() implies old_map.contains_key(
                #[trigger] old_pages[i].0,
            ) && old_map[old_pages[i].0] == old_pages[i].1.data@ by {
                self.lemma_view_at(i);
            }
        }
        let mut k: usize = 0;
        while k < self.pages.len()
            invariant
                self.pages@ == old_pages,
                k <= self.pages@.len(),
                forall|j: int| 0 <= j < k ==> self.pages@[j].0 != id,
            ensures
                k <= self.pages@.len(),
                self.pages@ == old_pages,
                forall|j: int| 0 <= j < k ==> self.pages@[j].0 != id,
                k < self.pages@.len() ==> self.pages@[k as int].0 == id,
            decreases self.pages@.len() - k,
        {
            if self.pages[k].0 == id {
                break;
            }
            k = k + 1;
        }
        let n = self.pages.len();
        let ghost data_view = data@;
        if k < n {
            self.pages.set(k, (id, Page { data }));
        } else {
            self.pages.push((id, Page { data }));
        }
        proof {
            let pages = self.pages@;
            assert forall|j: int, i: int| 0 <= j < i < pages.len() implies #[trigger] pages[j].0 != #[trigger] pages[i].0 by {
                if i == k as int {
                    assert(old_pages[j].0 != id || j >= k);
                } else if j == k as int {
                    if k < n {
                        assert(old_pages[k as int].0 == id);
                        assert(old_pages[j].0 != old_pages[i].0);
                    }
                } else {
                    assert(old_pages[j].0 != old_pages[i].0);
                }
            }
            assert(self.wf());
            assert forall|x: PageId| #[trigger] self@.contains_key(x) == old_map.insert(id, data_view).contains_key(x) by {
                if x != id {
                    if self@.contains_key(x) {
                        let i = choose|i: int| 0 <= i < pages.len() && pages[i].0 == x;
                        assert(i != k as int);
                        assert(old_pages[i].0 == x);
                    }
                    if old_map.contains_key(x) {
                        let i = choose|i: int| 0 <= i < old_pages.len() && old_pages[i].0 == x;
                        assert(i != k as int);
                        assert(pages[i].0 == x);
                    }
                } else {
                    assert(pages[k as int].0 == id);
                }
            }
            assert forall|x: PageId| #[trigger] self@.contains_key(x) implies self@[x] == old_map.insert(id, data_view)[x] by {
                let i = choose|i: int| 0 <= i < pages.len() && pages[i].0 == x;
                self.lemma_view_at(i);
                if x != id {
                    assert(i != k as int);
                    assert(old_pages[i] == pages[i]);
                } else {
                    assert(i == k as int);
                }
            }
            assert(self@ =~= old_map.insert(id, data_view));
        }
    }
}


/// The block carries a full-page image to be restored, and names its page.
pub open spec fn applies_image(b: XLBData) -> bool {
    b.page_id is Some && b.image is Some && b.image.unwrap().apply_image
}

/// The page images that the blocks restore, in block order.
pub open spec fn image_updates(bs: Seq<XLBData>) -> Seq<(PageId, Seq<u8>)>
    decreases bs.len(),
{
    if bs.len() == 0 {
        Seq::empty()
    } else {
        let prev = image_updates(bs.drop_last());
        let b = bs.last();
        if applies_image(b) {
            prev.push((b.page_id.unwrap(), restored_image(b.image.unwrap())))
        } else {
            prev
        }
    }
}

/// Every image that the blocks restore can be restored.
pub open spec fn images_restorable(bs: Seq<XLBData>) -> bool {
    forall|k: int| 0 <= k < bs.len() && applies_image(#[trigger] bs[k]) ==> image_restorable(bs[k].image.unwrap())
}

/// Every image that the blocks restore and that cannot be restored is compressed.
pub open spec fn images_fail_only_compressed(bs: Seq<XLBData>) -> bool {
    forall|k: int|
        0 <= k < bs.len() && applies_image(#[trigger] bs[k]) && !image_restorable(bs[k].image.unwrap())
            ==> bs[k].image.unwrap().bimg_info & BKPIMAGE_IS_COMPRESSED != 0
}

/// `m` with the updates `ps` applied in order.
pub open spec fn overlay(m: Map<PageId, Seq<u8>>, ps: Seq<(PageId, Seq<u8>)>) -> Map<PageId, Seq<u8>>
    decreases ps.len(),
{
    if ps.len() == 0 {
        m
    } else {
        overlay(m, ps.drop_last()).insert(ps.last().0, ps.last().1)
    }
}

/// The record is replayed: it belongs to the Heap or Heap2 resource manager.
pub open spec fn is_heap_family(rec: XLogRecord) -> bool {
    rec.header.xl_rmid == RmgrId::Heap || rec.header.xl_rmid == RmgrId::Heap2
}

/// For a Heap insert whose first block reference (id 0) names a page and
/// carries no image to restore: that page, the tuple (the block's data) and
/// the line pointer number.
pub open spec fn insert_of_record(rec: XLogRecord) -> Option<(PageId, Seq<u8>, u16)> {
    match rec.operation {
        Operation::Heap(HeapOperation::Insert(ins)) => {
            if rec.header.xl_rmid == RmgrId::Heap && rec.blocks@.len() > 0
                && rec.blocks@[0].blk_id == 0 && rec.blocks@[0].page_id is Some && !applies_image(
                rec.blocks@[0],
            ) && rec.blocks@[0].data is Some {
                Some((rec.blocks@[0].page_id.unwrap(), rec.blocks@[0].data.unwrap()@, ins.offnum))
            } else {
                None
            }
        },
        _ => None,
    }
}

/// Replaying `rec` on map `m` succeeds.
pub open spec fn record_applies(m: Map<PageId, Seq<u8>>, rec: XLogRecord) -> bool {
    if !is_heap_family(rec) {
        true
    } else {
        let after = overlay(m, image_updates(rec.blocks@));
        &&& images_restorable(rec.blocks@)
        &&& match insert_of_record(rec) {
            Some((pid, t, off)) => after.contains_key(pid) && insert_fits(after[pid], off as int, t.len() as int),
            None => true,
        }
    }
}

/// The map after replaying `rec` on `m`: images are restored in block order,
/// then a Heap insert adds its tuple to its page.
pub open spec fn apply_result(m: Map<PageId, Seq<u8>>, rec: XLogRecord) -> Map<PageId, Seq<u8>> {
    if !is_heap_family(rec) {
        m
    } else {
        let after = overlay(m, image_updates(rec.blocks@));
        match insert_of_record(rec) {
            Some((pid, t, off)) => after.insert(pid, inserted_page(after[pid], off as int, t)),
            None => after,
        }
    }
}

pub open spec fn pending_view(p: Seq<(PageId, Vec<u8>)>) -> Seq<(PageId, Seq<u8>)> {
    Seq::new(p.len(), |i: int| (p[i].0, p[i].1@))
}

proof fn lemma_overlay_take(m: Map<PageId, Seq<u8>>, ps: Seq<(PageId, Seq<u8>)>, k: int)
    requires
        0 <= k < ps.len(),
    ensures
        overlay(m, ps.take(k + 1)) == overlay(m, ps.take(k)).insert(ps[k].0, ps[k].1),
{
    assert(ps.take(k + 1).drop_last() =~= ps.take(k));
}

proof fn lemma_image_updates_take(bs: Seq<XLBData>, k: int)
    requires
        0 <= k < bs.len(),
    ensures
        image_updates(bs.take(k + 1)) == if applies_image(bs[k]) {
            image_updates(bs.take(k)).push((bs[k].page_id.unwrap(), restored_image(bs[k].image.unwrap())))
        } else {
            image_updates(bs.take(k))
        },
{
    assert(bs.take(k + 1).drop_last() =~= bs.take(k));
}

impl PageMapping {
    /// The image of page `id` once the updates `pending` are applied to the map.
    fn lookup(&self, pending: &Vec<(PageId, Vec<u8>)>, id: PageId) -> (r: Option<Vec<u8>>)
        requires
            self.wf(),
            forall|k: int| 0 <= k < pending@.len() ==> (#[trigger] pending@[k]).1@.len() == PAGE_BYTES,
        ensures
            r is Some <==> overlay(self@, pending_view(pending@)).contains_key(id),
            r matches Some(d) ==> d@ == overlay(self@, pending_view(pending@))[id] && d@.len() == PAGE_BYTES,
    {
        let ghost pv = pending_view(pending@);
        let mut k = pending.len();
        assert(pv.take(pv.len() as int) =~= pv);
        while k > 0
            invariant
                pv == pending_view(pending@),
                k <= pending@.len(),
                forall|j: int| 0 <= j < pending@.len() ==> (#[trigger] pending@[j]).1@.len() == PAGE_BYTES,
                forall|j: int| k <= j < pending@.len() ==> (#[trigger] pending@[j]).0 != id,
                overlay(self@, pv).contains_key(id) == overlay(self@, pv.take(k as int)).contains_key(id),
                overlay(self@, pv).contains_key(id) ==> overlay(self@, pv)[id] == overlay(
                    self@,
                    pv.take(k as int),
                )[id],
            decreases k,
        {
            proof {
                lemma_overlay_take(self@, pv, k - 1);
            }
            assert(pv[k - 1] == (pending@[k - 1].0, pending@[k - 1].1@));
            if pending[k - 1].0 == id {
                let d = pending[k - 1].1.clone();
                assert(overlay(self@, pv.take(k as int)).contains_key(id));
                return Some(d);
            }
            k = k - 1;
        }
        assert(pv.take(0) =~= Seq::<(PageId, Seq<u8>)>::empty());
        proof {
            self.lemma_pages_are_whole();
        }
        match self.get_page(&id) {
            Some(p) => Some(p.data.clone()),
            None => None,
        }
    }

    /// Replays one record. Records of resource managers other than Heap and
    /// Heap2 leave the map as it is. Otherwise the full-page images marked for
    /// restoration are restored, in block order, and a Heap insert places its
    /// tuple on the page of its first block reference. Either all of a
    /// record's changes are made or, on error, none.
    pub fn apply_xlog_record(&mut self, record: &XLogRecord) -> (r: Result<(), ApplyError>)
        requires
            old(self).wf(),
        ensures
            final(self).wf(),
            r is Ok <==> record_applies(old(self)@, *record),
            r is Ok ==> final(self)@ == apply_result(old(self)@, *record),
            r is Err ==> final(self)@ == old(self)@,
            is_heap_family(*record) && images_fail_only_compressed(record.blocks@) && !images_restorable(
                record.blocks@,
            ) ==> (r matches Err(e) && e.message@ == "compression not implemented"@),
    {
        if record.header.xl_rmid != RmgrId::Heap && record.header.xl_rmid != RmgrId::Heap2 {
            return Ok(());
        }
        let ghost bs = record.blocks@;
        let mut pending: Vec<(PageId, Vec<u8>)> = Vec::new();
        let mut k: usize = 0;
        while k < record.blocks.len()
            invariant
                self.wf(),
                self@ == old(self)@,
                is_heap_family(*record),
                bs == record.blocks@,
                k <= bs.len(),
                pending_view(pending@) == image_updates(bs.take(k as int)),
                images_restorable(bs.take(k as int)),
                forall|j: int| 0 <= j < pending@.len() ==> (#[trigger] pending@[j]).1@.len() == PAGE_BYTES,
            decreases bs.len() - k,
        {
            proof {
                lemma_image_updates_take(bs, k as int);
            }
            let b = &record.blocks[k];
            match (&b.image, b.page_id) {
                (Some(img), Some(pid)) => {
                    if img.apply_image {
                        let page = match restore_image(img) {
                            Ok(p) => p,
                            Err(e) => {
                                assert(applies_image(bs[k as int]) && !image_restorable(
                                    bs[k as int].image.unwrap(),
                                ));
                                return Err(e);
                            },
                        };
                        let ghost before = pending@;
                        pending.push((pid, page));
                        assert(pending_view(pending@) =~= pending_view(before).push((pid, page@)));
                    }
                },
                _ => {},
            }
            assert forall|j: int| 0 <= j < k + 1 && applies_image(#[trigger] bs.take(k + 1)[j]) implies image_restorable(
                bs.take(k + 1)[j].image.unwrap(),
            ) by {
                if j < k {
                    assert(bs.take(k + 1)[j] == bs.take(k as int)[j]);
                }
            }
            k = k + 1;
        }
        assert(bs.take(bs.len() as int) =~= bs);
        let ghost after = overlay(self@, pending_view(pending@));
        match &record.operation {
            Operation::Heap(HeapOperation::Insert(ins)) => {
                if record.header.xl_rmid == RmgrId::Heap && record.blocks.len() > 0
                    && record.blocks[0].blk_id == 0 {
                    let b = &record.blocks[0];
                    let restores = match &b.image {
                        Some(img) => img.apply_image,
                        None => false,
                    };
                    match (b.page_id, &b.data) {
                        (Some(pid), Some(d)) => {
                            if !restores {
                                let cur = match self.lookup(&pending, pid) {
                                    Some(c) => c,
                                    None => {
                                        return Err(ApplyError { message: "page of the insert is not in the map".to_owned() });
                                    },
                                };
                                let updated = match insert_tuple(&cur, ins.offnum, d.as_slice()) {
                                    Some(u) => u,
                                    None => {
                                        return Err(ApplyError { message: "tuple does not fit on its page".to_owned() });
                                    },
                                };
                                let ghost before = pending@;
                                pending.push((pid, updated));
                                assert(pending_view(pending@) =~= pending_view(before).push((pid, updated@)));
                                assert(pending_view(pending@).drop_last() =~= pending_view(before));
                            }
                        },
                        _ => {},
                    }
                }
            },
            _ => {},
        }
        let ghost target = overlay(self@, pending_view(pending@));
        let ghost pv = pending_view(pending@);
        let mut j: usize = 0;
        let ghost start = self@;
        while j < pending.len()
            invariant
                self.wf(),
                pv == pending_view(pending@),
                j <= pending@.len(),
                self@ == overlay(start, pv.take(j as int)),
                forall|i: int| 0 <= i < pending@.len() ==> (#[trigger] pending@[i]).1@.len() == PAGE_BYTES,
            decreases pending@.len() - j,
        {
            proof {
                lemma_overlay_take(start, pv, j as int);
            }
            self.set_page(pending[j].0, pending[j].1.clone());
            j = j + 1;
        }
        assert(pv.take(pv.len() as int) =~= pv);
        Ok(())
    }
}

} // verus!
