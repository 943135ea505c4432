//! The address space of a task: a page table and the regions mapped in it.

use crate::addr::{lemma_align_4k, pages_for, spec_align_up_4k, spec_pages_for, PAGE_SIZE_4K};
use crate::area::MapArea;
use crate::backend::MemBackend;
use crate::file::FileSystem;
use crate::flags::MappingFlags;
use crate::frame::{zeros, FrameAllocator};
use crate::page_table::{
    page_in, same_outside, spec_clear, spec_fill, spec_range_unmapped, PageEntry, PageTable,
};
use vstd::prelude::*;

verus! {

/// A range of physical memory that the kernel maps into every address space.
#[derive(Clone, Copy, Debug, PartialEq, Eq, Structural)]
pub struct MemRegion {
    pub vaddr: usize,
    pub paddr: usize,
    pub size: usize,
    pub flags: MappingFlags,
}

impl MemRegion {
    /// The region is page-aligned and lies in the address space.
    pub open spec fn ok(&self) -> bool {
        &&& self.vaddr as int % 4096 == 0
        &&& self.paddr as int % 4096 == 0
        &&& self.size as int % 4096 == 0
        &&& self.vaddr + self.size <= usize::MAX
        &&& self.paddr + self.size <= usize::MAX
    }

    /// Whether `va` lies in the region.
    pub open spec fn covers(&self, va: int) -> bool {
        self.vaddr <= va < self.vaddr + self.size
    }

    /// The page-table entry of the page at `va` of the region.
    pub open spec fn spec_entry(&self, va: int) -> PageEntry {
        PageEntry::Mapped { paddr: (self.paddr + (va - self.vaddr)) as usize, flags: self.flags }
    }

    /// Whether the region and `[start, end)` have no address in common.
    pub open spec fn apart(&self, start: int, end: int) -> bool {
        self.vaddr + self.size <= start || end <= self.vaddr
    }
}

/// Whether the area and `[start, end)` lie apart: one ends where or before
/// the other starts.
pub open spec fn area_apart(a: MapArea, start: int, end: int) -> bool {
    a.spec_end_va() <= start || end <= a.vaddr
}

/// Every area is well-formed.
pub open spec fn areas_wf(areas: Seq<MapArea>) -> bool {
    forall|i: int| 0 <= i < areas.len() ==> (#[trigger] areas[i]).wf()
}

/// No two areas overlap.
pub open spec fn areas_disjoint(areas: Seq<MapArea>) -> bool {
    forall|i: int, j: int|
        0 <= i < areas.len() && 0 <= j < areas.len() && i != j ==> area_apart(
            #[trigger] areas[i],
            (#[trigger] areas[j]).vaddr as int,
            areas[j].spec_end_va(),
        )
}

/// The table agrees with every area.
pub open spec fn areas_mapped(areas: Seq<MapArea>, table: Map<usize, PageEntry>) -> bool {
    forall|i: int| 0 <= i < areas.len() ==> (#[trigger] areas[i]).mapped_in(table)
}

/// Whether `va` lies in one of the areas.
pub open spec fn is_user_page(areas: Seq<MapArea>, va: int) -> bool {
    exists|i: int| 0 <= i < areas.len() && (#[trigger] areas[i]).covers(va)
}

/// Whether `va` lies in one of the first `upto` kernel regions.
pub open spec fn is_kernel_page(kernel: Seq<MemRegion>, upto: int, va: int) -> bool {
    exists|r: int| 0 <= r < upto && (#[trigger] kernel[r]).covers(va)
}

/// Every entry of the table belongs to an area or to a kernel region.
pub open spec fn table_owned(
    areas: Seq<MapArea>,
    kernel: Seq<MemRegion>,
    table: Map<usize, PageEntry>,
) -> bool {
    forall|va: usize| #[trigger]
        table.contains_key(va) ==> is_user_page(areas, va as int) || is_kernel_page(
            kernel,
            kernel.len() as int,
            va as int,
        )
}

/// Every page of the first `upto` kernel regions is mapped as the region says.
pub open spec fn kernel_mapped(kernel: Seq<MemRegion>, upto: int, table: Map<usize, PageEntry>) -> bool {
    forall|r: int, va: usize|
        0 <= r < upto && #[trigger] page_in(
            va as int,
            (#[trigger] kernel[r]).vaddr as int,
            kernel[r].size as int,
        ) ==> table.contains_key(va) && table[va] == kernel[r].spec_entry(va as int)
}

/// No area overlaps a kernel region.
pub open spec fn kernel_apart(areas: Seq<MapArea>, kernel: Seq<MemRegion>) -> bool {
    forall|i: int, r: int|
        0 <= i < areas.len() && 0 <= r < kernel.len() ==> (#[trigger] kernel[r]).apart(
            (#[trigger] areas[i]).vaddr as int,
            areas[i].spec_end_va(),
        )
}

/// The regions are acceptable to the table and do not overlap each other.
pub open spec fn kernel_ok(kernel: Seq<MemRegion>) -> bool {
    &&& forall|r: int| 0 <= r < kernel.len() ==> (#[trigger] kernel[r]).ok()
    &&& forall|r: int, q: int|
        0 <= r < kernel.len() && 0 <= q < kernel.len() && r != q ==> (#[trigger] kernel[r]).apart(
            (#[trigger] kernel[q]).vaddr as int,
            kernel[q].vaddr + kernel[q].size,
        )
}

/// `[start, end)` lies apart from every area and from every kernel region.
pub open spec fn range_free(
    areas: Seq<MapArea>,
    kernel: Seq<MemRegion>,
    start: int,
    end: int,
) -> bool {
    &&& forall|i: int| 0 <= i < areas.len() ==> area_apart(#[trigger] areas[i], start, end)
    &&& forall|r: int| 0 <= r < kernel.len() ==> (#[trigger] kernel[r]).apart(start, end)
}

/// The index of the first area from `from` on that covers `va`, or -1.
pub open spec fn spec_find(areas: Seq<MapArea>, va: int, from: int) -> int
    decreases areas.len() - from,
{
    if from < 0 || from >= areas.len() {
        -1
    } else if areas[from].covers(va) {
        from
    } else {
        spec_find(areas, va, from + 1)
    }
}

/// The largest end address among the first `upto` areas, or 0.
pub open spec fn spec_max_end(areas: Seq<MapArea>, upto: int) -> int
    decreases upto,
{
    if upto <= 0 {
        0
    } else {
        let rest = spec_max_end(areas, upto - 1);
        if areas[upto - 1].spec_end_va() > rest {
            areas[upto - 1].spec_end_va()
        } else {
            rest
        }
    }
}

/// An area that lies apart from the range in which two tables differ agrees
/// with both or with neither.
pub proof fn lemma_frame_area(
    a: MapArea,
    t: Map<usize, PageEntry>,
    t2: Map<usize, PageEntry>,
    start: int,
    size: int,
)
    requires
        a.mapped_in(t),
        same_outside(t, t2, start, size),
        area_apart(a, start, start + size),
    ensures
        a.mapped_in(t2),
{
    assert forall|va: usize| #[trigger]
        page_in(va as int, a.vaddr as int, a.spec_size()) implies t2.contains_key(va) && t2[va]
        == a.spec_entry(a.slot_of(va as int)) by {
        assert(!page_in(va as int, start, size));
        assert(t.contains_key(va));
    }
}

/// Kernel regions that lie apart from the range in which two tables differ
/// are mapped in both or in neither.
pub proof fn lemma_frame_kernel(
    kernel: Seq<MemRegion>,
    upto: int,
    t: Map<usize, PageEntry>,
    t2: Map<usize, PageEntry>,
    start: int,
    size: int,
)
    requires
        kernel_mapped(kernel, upto, t),
        same_outside(t, t2, start, size),
        forall|r: int| 0 <= r < upto ==> (#[trigger] kernel[r]).apart(start, start + size),
    ensures
        kernel_mapped(kernel, upto, t2),
{
    assert forall|r: int, va: usize|
        0 <= r < upto && #[trigger] page_in(
            va as int,
            (#[trigger] kernel[r]).vaddr as int,
            kernel[r].size as int,
        ) implies t2.contains_key(va) && t2[va] == kernel[r].spec_entry(va as int) by {
        assert(kernel[r].apart(start, start + size));
        assert(!page_in(va as int, start, size));
        assert(t.contains_key(va));
    }
}

/// A range that lies apart from all areas and kernel regions has no entry in
/// a table whose every entry belongs to one of them.
pub proof fn lemma_free_unmapped(
    areas: Seq<MapArea>,
    kernel: Seq<MemRegion>,
    table: Map<usize, PageEntry>,
    start: int,
    end: int,
)
    requires
        table_owned(areas, kernel, table),
        range_free(areas, kernel, start, end),
    ensures
        spec_range_unmapped(table, start, end - start),
{
    assert forall|va: usize| page_in(va as int, start, end - start) implies !#[trigger] table.contains_key(
        va,
    ) by {
        if table.contains_key(va) {
            if is_user_page(areas, va as int) {
                let i = choose|i: int| 0 <= i < areas.len() && (#[trigger] areas[i]).covers(va as int);
                assert(area_apart(areas[i], start, end));
            } else {
                let r = choose|r: int| 0 <= r < kernel.len() && (#[trigger] kernel[r]).covers(va as int);
                assert(kernel[r].apart(start, end));
            }
        }
    }
}

/// `a` is the area `[vaddr, vaddr + 4096 * pages)` with the given permissions
/// and backend, and none of its pages is resident.
pub open spec fn is_lazy_region(
    a: MapArea,
    vaddr: int,
    pages: int,
    flags: MappingFlags,
    backend: Option<MemBackend>,
) -> bool {
    &&& a.vaddr == vaddr
    &&& a.pages@.len() == pages
    &&& a.flags == flags
    &&& a.backend == backend
    &&& forall|i: int| 0 <= i < pages ==> (#[trigger] a.pages@[i]).is_none()
}

/// `a` is the area `[vaddr, vaddr + 4096 * pages)` with the given permissions
/// and backend; all of its pages are resident, in consecutive frames from
/// `base` on, and it holds `data` followed by zeros.
pub open spec fn is_loaded_region(
    a: MapArea,
    vaddr: int,
    pages: int,
    flags: MappingFlags,
    backend: Option<MemBackend>,
    data: Seq<u8>,
    base: int,
) -> bool {
    &&& a.vaddr == vaddr
    &&& a.pages@.len() == pages
    &&& a.flags == flags
    &&& a.backend == backend
    &&& forall|i: int|
        0 <= i < pages ==> (#[trigger] a.pages@[i]).is_some() && a.pages@[i].unwrap().paddr()
            == base + i * 4096
    &&& forall|k: int|
        0 <= k < pages * 4096 ==> #[trigger] a.spec_byte(k) == (if k < data.len() {
            data[k]
        } else {
            0u8
        })
}

/// Whether splitting at `[start, end)` leaves a piece of `a` below `start`.
pub open spec fn has_left(a: MapArea, start: int, end: int) -> bool {
    a.spec_overlap_with(start, end) && a.vaddr < start
}

/// Whether splitting at `[start, end)` leaves a piece of `a` from `end` on.
pub open spec fn has_right(a: MapArea, start: int, end: int) -> bool {
    a.spec_overlap_with(start, end) && end < a.spec_end_va()
}

/// Number of pages of the piece below `start`.
pub open spec fn left_pages(a: MapArea, start: int, end: int) -> int {
    if has_left(a, start, end) {
        (start - a.vaddr) / 4096
    } else {
        0
    }
}

/// Number of pages of the piece from `end` on.
pub open spec fn right_pages(a: MapArea, start: int, end: int) -> int {
    if has_right(a, start, end) {
        (a.spec_end_va() - end) / 4096
    } else {
        0
    }
}

/// Number of pieces that splitting at `[start, end)` leaves of `a`.
pub open spec fn piece_count(a: MapArea, start: int, end: int) -> int {
    (if has_left(a, start, end) {
        1int
    } else {
        0int
    }) + (if has_right(a, start, end) {
        1int
    } else {
        0int
    })
}

/// Number of the first `upto` areas that do not overlap `[start, end)`.
pub open spec fn count_kept(areas: Seq<MapArea>, start: int, end: int, upto: int) -> int
    decreases upto,
{
    if upto <= 0 {
        0
    } else {
        count_kept(areas, start, end, upto - 1) + (if areas[upto - 1].spec_overlap_with(
            start,
            end,
        ) {
            0int
        } else {
            1int
        })
    }
}

/// Number of pieces that splitting at `[start, end)` leaves of the first
/// `upto` areas.
pub open spec fn count_pieces(areas: Seq<MapArea>, start: int, end: int, upto: int) -> int
    decreases upto,
{
    if upto <= 0 {
        0
    } else {
        count_pieces(areas, start, end, upto - 1) + piece_count(areas[upto - 1], start, end)
    }
}

/// Number of pages in the pieces that splitting at `[start, end)` leaves of
/// the first `upto` areas: the number of frames that the split takes.
pub open spec fn split_pages(areas: Seq<MapArea>, start: int, end: int, upto: int) -> int
    decreases upto,
{
    if upto <= 0 {
        0
    } else {
        split_pages(areas, start, end, upto - 1) + left_pages(areas[upto - 1], start, end)
            + right_pages(areas[upto - 1], start, end)
    }
}

/// The frames of the first `upto` areas, area by area.
pub open spec fn frames_of(areas: Seq<MapArea>, upto: int) -> Seq<usize>
    decreases upto,
{
    if upto <= 0 {
        Seq::empty()
    } else {
        frames_of(areas, upto - 1) + areas[upto - 1].spec_frames(areas[upto - 1].pages@.len() as int)
    }
}

/// The frames of those of the first `upto` areas that overlap
/// `[start, end)`, area by area: the frames that the split gives back.
pub open spec fn split_released(areas: Seq<MapArea>, start: int, end: int, upto: int) -> Seq<usize>
    decreases upto,
{
    if upto <= 0 {
        Seq::empty()
    } else if areas[upto - 1].spec_overlap_with(start, end) {
        split_released(areas, start, end, upto - 1) + areas[upto - 1].spec_frames(
            areas[upto - 1].pages@.len() as int,
        )
    } else {
        split_released(areas, start, end, upto - 1)
    }
}

/// What the stored files hold once those of the first `upto` areas that
/// overlap `[start, end)` have been written back, in order.
pub open spec fn files_after_split(
    areas: Seq<MapArea>,
    start: int,
    end: int,
    upto: int,
    files: Seq<Seq<u8>>,
) -> Seq<Seq<u8>>
    decreases upto,
{
    if upto <= 0 {
        files
    } else {
        let before = files_after_split(areas, start, end, upto - 1, files);
        if areas[upto - 1].spec_overlap_with(start, end) {
            areas[upto - 1].synced_all(before)
        } else {
            before
        }
    }
}

/// The backend `b` with its cursor moved on by `delta` bytes.
pub open spec fn shifted(b: Option<MemBackend>, delta: int) -> Option<MemBackend> {
    match b {
        Some(b) => Some(MemBackend { file: b.file, cursor: (b.cursor + delta) as u64 }),
        None => None,
    }
}

/// `p` is the part `[lo, hi)` of the area `a`: it has the permissions of `a`
/// and its backend, moved on to `lo`; all its pages are resident, in
/// consecutive frames from `base` on; and it holds the bytes that a read of
/// that part of `a` observed when the stored files held `files`.
#[verifier::opaque]
pub open spec fn is_piece(
    p: MapArea,
    a: MapArea,
    lo: int,
    hi: int,
    files: Seq<Seq<u8>>,
    base: int,
) -> bool {
    &&& p.vaddr == lo
    &&& p.spec_size() == hi - lo
    &&& p.flags == a.flags
    &&& p.backend == shifted(a.backend, lo - a.vaddr)
    &&& forall|i: int|
        0 <= i < p.pages@.len() ==> (#[trigger] p.pages@[i]).is_some() && p.pages@[i].unwrap().paddr()
            == base + i * 4096
    &&& forall|k: int|
        0 <= k < hi - lo ==> #[trigger] p.spec_byte(k) == a.spec_bytes(files)[k + lo - a.vaddr]
}

/// Every area's backend refers to one of the first `nfiles` stored files.
pub open spec fn areas_backed(areas: Seq<MapArea>, nfiles: int) -> bool {
    forall|i: int| 0 <= i < areas.len() ==> (#[trigger] areas[i]).backed_by(nfiles)
}

/// How the areas `news` arise from the areas `olds` when `[start, end)` is
/// freed. The areas that do not overlap the range stay, in order and
/// unchanged. After them come the pieces of the others, in order: of each,
/// what lies below `start`, then what lies from `end` on. Each area that
/// overlaps is written back to its file before the next one is looked at, so
/// a piece holds what a read observed after the earlier ones were written back.
pub open spec fn split_layout(
    olds: Seq<MapArea>,
    news: Seq<MapArea>,
    upto: int,
    shift: int,
    start: int,
    end: int,
    files: Seq<Seq<u8>>,
    base: int,
) -> bool {
    &&& forall|j: int|
        0 <= j < upto && !olds[j].spec_overlap_with(start, end) ==> news[#[trigger] count_kept(
            olds,
            start,
            end,
            j,
        )] == olds[j]
    &&& forall|j: int|
        0 <= j < upto && has_left(olds[j], start, end) ==> is_piece(
            news[shift + #[trigger] count_pieces(olds, start, end, j)],
            olds[j],
            olds[j].vaddr as int,
            start,
            files_after_split(olds, start, end, j, files),
            base + 4096 * split_pages(olds, start, end, j),
        )
    &&& forall|j: int|
        0 <= j < upto && has_right(olds[j], start, end) ==> is_piece(
            news[shift + #[trigger] count_pieces(olds, start, end, j) + (if has_left(
                olds[j],
                start,
                end,
            ) {
                1int
            } else {
                0int
            })],
            olds[j],
            end,
            olds[j].spec_end_va(),
            files_after_split(olds, start, end, j, files),
            base + 4096 * (split_pages(olds, start, end, j) + left_pages(olds[j], start, end)),
        )
}

/// What freeing `[start, end)` makes of the areas `olds`: see `split_layout`.
pub open spec fn split_post(
    olds: Seq<MapArea>,
    news: Seq<MapArea>,
    start: int,
    end: int,
    files: Seq<Seq<u8>>,
    base: int,
) -> bool {
    let n = olds.len() as int;
    &&& news.len() == count_kept(olds, start, end, n) + count_pieces(olds, start, end, n)
    &&& split_layout(olds, news, n, count_kept(olds, start, end, n), start, end, files, base)
    &&& forall|i: int| 0 <= i < news.len() ==> area_apart(#[trigger] news[i], start, end)
}

/// The counts of a split grow with the number of areas looked at.
pub proof fn lemma_split_counts(areas: Seq<MapArea>, start: int, end: int, lo: int, hi: int)
    requires
        0 <= lo <= hi <= areas.len(),
        areas_wf(areas),
        start <= end,
    ensures
        0 <= count_kept(areas, start, end, lo) <= count_kept(areas, start, end, hi),
        count_kept(areas, start, end, hi) <= hi,
        0 <= count_pieces(areas, start, end, lo) <= count_pieces(areas, start, end, hi),
        0 <= split_pages(areas, start, end, lo) <= split_pages(areas, start, end, hi),
    decreases hi,
{
    if hi > 0 {
        assert(areas[hi - 1].wf());
        if lo < hi {
            lemma_split_counts(areas, start, end, lo, hi - 1);
        } else {
            lemma_split_counts(areas, start, end, lo - 1, hi - 1);
        }
    }
}

/// Writing areas back changes no file's number.
pub proof fn lemma_files_after_split_len(
    areas: Seq<MapArea>,
    start: int,
    end: int,
    upto: int,
    files: Seq<Seq<u8>>,
)
    ensures
        files_after_split(areas, start, end, upto, files).len() == files.len(),
    decreases upto,
{
    if upto > 0 {
        lemma_files_after_split_len(areas, start, end, upto - 1, files);
        areas[upto - 1].lemma_synced_len(
            areas[upto - 1].pages@.len() as int,
            files_after_split(areas, start, end, upto - 1, files),
        );
    }
}

/// One step of a split in which the area looked at overlaps the range: it
/// leaves the list and its pieces are appended.
pub proof fn lemma_split_step_removed(
    olds: Seq<MapArea>,
    cur0: Seq<MapArea>,
    cur3: Seq<MapArea>,
    p: int,
    i: int,
    s: int,
    e: int,
    files0: Seq<Seq<u8>>,
    base: int,
)
    requires
        0 <= p < olds.len(),
        areas_wf(olds),
        s <= e,
        i == count_kept(olds, s, e, p),
        cur0.len() == i + (olds.len() - p) + count_pieces(olds, s, e, p),
        forall|k: int| i <= k < i + (olds.len() - p) ==> #[trigger] cur0[k] == olds[k - i + p],
        split_layout(olds, cur0, p, i + (olds.len() - p), s, e, files0, base),
        forall|k: int|
            0 <= k < cur0.len() && !(i <= k < i + (olds.len() - p)) ==> area_apart(
                #[trigger] cur0[k],
                s,
                e,
            ),
        olds[p].spec_overlap_with(s, e),
        cur3.len() == cur0.len() - 1 + piece_count(olds[p], s, e),
        forall|k: int| 0 <= k < cur0.len() - 1 ==> #[trigger] cur3[k] == cur0.remove(i)[k],
        has_left(olds[p], s, e) ==> is_piece(
            cur3[cur0.len() - 1],
            olds[p],
            olds[p].vaddr as int,
            s,
            files_after_split(olds, s, e, p, files0),
            base + 4096 * split_pages(olds, s, e, p),
        ),
        has_right(olds[p], s, e) ==> is_piece(
            cur3[cur0.len() - 1 + (if has_left(olds[p], s, e) {
                1int
            } else {
                0int
            })],
            olds[p],
            e,
            olds[p].spec_end_va(),
            files_after_split(olds, s, e, p, files0),
            base + 4096 * (split_pages(olds, s, e, p) + left_pages(olds[p], s, e)),
        ),
        has_left(olds[p], s, e) ==> area_apart(cur3[cur0.len() - 1], s, e),
        has_right(olds[p], s, e) ==> area_apart(
            cur3[cur0.len() - 1 + (if has_left(olds[p], s, e) {
                1int
            } else {
                0int
            })],
            s,
            e,
        ),
    ensures
        i == count_kept(olds, s, e, p + 1),
        cur3.len() == i + (olds.len() - (p + 1)) + count_pieces(olds, s, e, p + 1),
        forall|k: int|
            i <= k < i + (olds.len() - (p + 1)) ==> #[trigger] cur3[k] == olds[k - i + (p + 1)],
        split_layout(olds, cur3, p + 1, i + (olds.len() - (p + 1)), s, e, files0, base),
        forall|k: int|
            0 <= k < cur3.len() && !(i <= k < i + (olds.len() - (p + 1))) ==> area_apart(
                #[trigger] cur3[k],
                s,
                e,
            ),
{
    let n = olds.len() as int;
    let shift0 = i + (n - p);
    let shift1 = i + (n - p - 1);
    let cur1 = cur0.remove(i);
    lemma_split_counts(olds, s, e, p, p + 1);
    lemma_split_counts(olds, s, e, 0, p);
    assert(cur0[i] == olds[p]);
    assert forall|k: int| i <= k < i + (n - (p + 1)) implies #[trigger] cur3[k] == olds[k - i + (p
        + 1)] by {
        assert(cur3[k] == cur1[k]);
        assert(cur1[k] == cur0[k + 1]);
    }
    assert forall|j: int| 0 <= j < p + 1 && !olds[j].spec_overlap_with(s, e) implies cur3[#[trigger] count_kept(
        olds,
        s,
        e,
        j,
    )] == olds[j] by {
        lemma_split_counts(olds, s, e, j + 1, p);
        lemma_split_counts(olds, s, e, j, j + 1);
        lemma_split_counts(olds, s, e, 0, j);
        let c = count_kept(olds, s, e, j);
        assert(0 <= c < i);
        assert(cur3[c] == cur1[c]);
        assert(cur1[c] == cur0[c]);
    }
    assert forall|j: int| 0 <= j < p + 1 && has_left(olds[j], s, e) implies is_piece(
        cur3[shift1 + #[trigger] count_pieces(olds, s, e, j)],
        olds[j],
        olds[j].vaddr as int,
        s,
        files_after_split(olds, s, e, j, files0),
        base + 4096 * split_pages(olds, s, e, j),
    ) by {
        if j < p {
            lemma_split_counts(olds, s, e, j + 1, p);
            lemma_split_counts(olds, s, e, j, j + 1);
            lemma_split_counts(olds, s, e, 0, j);
            let c = shift0 + count_pieces(olds, s, e, j);
            assert(i < c < cur0.len());
            assert(cur3[c - 1] == cur1[c - 1]);
            assert(cur1[c - 1] == cur0[c]);
        }
    }
    assert forall|j: int| 0 <= j < p + 1 && has_right(olds[j], s, e) implies is_piece(
        cur3[shift1 + #[trigger] count_pieces(olds, s, e, j) + (if has_left(olds[j], s, e) {
            1int
        } else {
            0int
        })],
        olds[j],
        e,
        olds[j].spec_end_va(),
        files_after_split(olds, s, e, j, files0),
        base + 4096 * (split_pages(olds, s, e, j) + left_pages(olds[j], s, e)),
    ) by {
        if j < p {
            lemma_split_counts(olds, s, e, j + 1, p);
            lemma_split_counts(olds, s, e, j, j + 1);
            lemma_split_counts(olds, s, e, 0, j);
            let c = shift0 + count_pieces(olds, s, e, j) + (if has_left(olds[j], s, e) {
                1int
            } else {
                0int
            });
            assert(i < c < cur0.len());
            assert(cur3[c - 1] == cur1[c - 1]);
            assert(cur1[c - 1] == cur0[c]);
        }
    }
    assert forall|k: int|
        0 <= k < cur3.len() && !(i <= k < i + (n - (p + 1))) implies area_apart(
        #[trigger] cur3[k],
        s,
        e,
    ) by {
        if k < cur0.len() - 1 {
            assert(cur3[k] == cur1[k]);
            if k < i {
                assert(cur1[k] == cur0[k]);
            } else {
                assert(cur1[k] == cur0[k + 1]);
            }
        }
    }
}

/// One step of a split in which the area looked at does not overlap the
/// range: it stays where it is.
pub proof fn lemma_split_step_kept(
    olds: Seq<MapArea>,
    cur0: Seq<MapArea>,
    p: int,
    i: int,
    s: int,
    e: int,
    files0: Seq<Seq<u8>>,
    base: int,
)
    requires
        0 <= p < olds.len(),
        areas_wf(olds),
        s <= e,
        i == count_kept(olds, s, e, p),
        cur0.len() == i + (olds.len() - p) + count_pieces(olds, s, e, p),
        forall|k: int| i <= k < i + (olds.len() - p) ==> #[trigger] cur0[k] == olds[k - i + p],
        split_layout(olds, cur0, p, i + (olds.len() - p), s, e, files0, base),
        forall|k: int|
            0 <= k < cur0.len() && !(i <= k < i + (olds.len() - p)) ==> area_apart(
                #[trigger] cur0[k],
                s,
                e,
            ),
        !olds[p].spec_overlap_with(s, e),
    ensures
        i + 1 == count_kept(olds, s, e, p + 1),
        cur0.len() == i + 1 + (olds.len() - (p + 1)) + count_pieces(olds, s, e, p + 1),
        forall|k: int|
            i + 1 <= k < i + 1 + (olds.len() - (p + 1)) ==> #[trigger] cur0[k] == olds[k - (i + 1)
                + (p + 1)],
        split_layout(olds, cur0, p + 1, i + 1 + (olds.len() - (p + 1)), s, e, files0, base),
        forall|k: int|
            0 <= k < cur0.len() && !(i + 1 <= k < i + 1 + (olds.len() - (p + 1))) ==> area_apart(
                #[trigger] cur0[k],
                s,
                e,
            ),
{
    lemma_split_counts(olds, s, e, p, p + 1);
    assert(cur0[i] == olds[p]);
    assert(olds[p].wf());
    assert forall|j: int| 0 <= j < p + 1 && !olds[j].spec_overlap_with(s, e) implies cur0[#[trigger] count_kept(
        olds,
        s,
        e,
        j,
    )] == olds[j] by {}
    assert forall|k: int|
        0 <= k < cur0.len() && !(i + 1 <= k < i + 1 + (olds.len() - (p + 1))) implies area_apart(
        #[trigger] cur0[k],
        s,
        e,
    ) by {}
}

/// The parts of the invariant of an address space that speak of the areas,
/// the table and the kernel regions.
pub open spec fn space_inv(
    areas: Seq<MapArea>,
    kernel: Seq<MemRegion>,
    table: Map<usize, PageEntry>,
) -> bool {
    &&& areas_wf(areas)
    &&& areas_disjoint(areas)
    &&& areas_mapped(areas, table)
    &&& table_owned(areas, kernel, table)
    &&& kernel_ok(kernel)
    &&& kernel_mapped(kernel, kernel.len() as int, table)
    &&& kernel_apart(areas, kernel)
}

/// The invariant survives a change of one area that keeps the area's range,
/// together with a change of the table that is confined to that range and
/// after which the table agrees with the area.
pub proof fn lemma_update_area(
    olds: Seq<MapArea>,
    news: Seq<MapArea>,
    idx: int,
    kernel: Seq<MemRegion>,
    old_table: Map<usize, PageEntry>,
    new_table: Map<usize, PageEntry>,
)
    requires
        space_inv(olds, kernel, old_table),
        0 <= idx < olds.len(),
        news.len() == olds.len(),
        forall|j: int| 0 <= j < olds.len() && j != idx ==> #[trigger] news[j] == olds[j],
        news[idx].wf(),
        news[idx].vaddr == olds[idx].vaddr,
        news[idx].pages@.len() == olds[idx].pages@.len(),
        news[idx].mapped_in(new_table),
        same_outside(old_table, new_table, olds[idx].vaddr as int, olds[idx].spec_size()),
    ensures
        space_inv(news, kernel, new_table),
{
    let lo = olds[idx].vaddr as int;
    let size = olds[idx].spec_size();
    assert forall|i: int| 0 <= i < news.len() implies (#[trigger] news[i]).wf() && news[i].mapped_in(
        new_table,
    ) by {
        if i != idx {
            assert(news[i] == olds[i]);
            assert(olds[i].wf());
            assert(area_apart(olds[i], olds[idx].vaddr as int, olds[idx].spec_end_va()));
            lemma_frame_area(olds[i], old_table, new_table, lo, size);
        }
    }
    assert forall|i: int| 0 <= i < news.len() implies (#[trigger] news[i]).vaddr == olds[i].vaddr
        && news[i].spec_end_va() == olds[i].spec_end_va() by {
        if i != idx {
            assert(news[i] == olds[i]);
        }
    }
    assert forall|i: int, j: int|
        0 <= i < news.len() && 0 <= j < news.len() && i != j implies area_apart(
        #[trigger] news[i],
        (#[trigger] news[j]).vaddr as int,
        news[j].spec_end_va(),
    ) by {
        assert(area_apart(olds[i], olds[j].vaddr as int, olds[j].spec_end_va()));
    }
    assert forall|va: usize| #[trigger] new_table.contains_key(va) implies is_user_page(
        news,
        va as int,
    ) || is_kernel_page(kernel, kernel.len() as int, va as int) by {
        if page_in(va as int, lo, size) {
            assert(news[idx].covers(va as int));
        } else {
            assert(old_table.contains_key(va));
            if is_user_page(olds, va as int) {
                let i = choose|i: int| 0 <= i < olds.len() && (#[trigger] olds[i]).covers(va as int);
                assert(news[i].covers(va as int));
            }
        }
    }
    assert forall|r: int| 0 <= r < kernel.len() implies (#[trigger] kernel[r]).apart(lo, lo + size) by {
        assert(kernel[r].apart(olds[idx].vaddr as int, olds[idx].spec_end_va()));
    }
    lemma_frame_kernel(kernel, kernel.len() as int, old_table, new_table, lo, size);
    assert forall|i: int, r: int| 0 <= i < news.len() && 0 <= r < kernel.len() implies (#[trigger] kernel[r]).apart(
        (#[trigger] news[i]).vaddr as int,
        news[i].spec_end_va(),
    ) by {
        assert(kernel[r].apart(olds[i].vaddr as int, olds[i].spec_end_va()));
    }
}

/// The index of the first area from `from` on that contains `[start, end)`, or -1.
pub open spec fn spec_find_containing(areas: Seq<MapArea>, start: int, end: int, from: int) -> int
    decreases areas.len() - from,
{
    if from < 0 || from >= areas.len() {
        -1
    } else if areas[from].spec_contains(start, end) {
        from
    } else {
        spec_find_containing(areas, start, end, from + 1)
    }
}

/// The largest end address is at or above the end of every area.
pub proof fn lemma_max_end(areas: Seq<MapArea>, upto: int)
    requires
        0 <= upto <= areas.len(),
    ensures
        spec_max_end(areas, upto) >= 0,
        forall|i: int| 0 <= i < upto ==> (#[trigger] areas[i]).spec_end_va() <= spec_max_end(areas, upto),
    decreases upto,
{
    if upto > 0 {
        lemma_max_end(areas, upto - 1);
    }
}

/// The two lists hold areas of the same ranges, permissions and backends,
/// with the same slots filled by the same frames.
pub open spec fn same_shape(olds: Seq<MapArea>, news: Seq<MapArea>) -> bool {
    &&& news.len() == olds.len()
    &&& forall|i: int|
        0 <= i < olds.len() ==> {
            &&& (#[trigger] news[i]).vaddr == olds[i].vaddr
            &&& news[i].flags == olds[i].flags
            &&& news[i].backend == olds[i].backend
            &&& news[i].pages@.len() == olds[i].pages@.len()
            &&& forall|q: int|
                0 <= q < olds[i].pages@.len() ==> {
                    &&& (#[trigger] news[i].pages@[q]).is_some() == olds[i].pages@[q].is_some()
                    &&& news[i].pages@[q].is_some() ==> news[i].pages@[q].unwrap().paddr()
                        == olds[i].pages@[q].unwrap().paddr()
                }
        }
}

/// Areas of the same shape have the same backends.
pub proof fn lemma_shape_backed(olds: Seq<MapArea>, news: Seq<MapArea>, nfiles: int)
    requires
        same_shape(olds, news),
        areas_backed(olds, nfiles),
    ensures
        areas_backed(news, nfiles),
{
    assert forall|i: int| 0 <= i < news.len() implies (#[trigger] news[i]).backed_by(nfiles) by {
        assert(olds[i].backed_by(nfiles));
    }
}

/// Having the same shape carries over from one list to the next.
pub proof fn lemma_same_shape_trans(a: Seq<MapArea>, b: Seq<MapArea>, c: Seq<MapArea>)
    requires
        same_shape(a, b),
        same_shape(b, c),
    ensures
        same_shape(a, c),
{
    assert forall|i: int| 0 <= i < a.len() implies {
        &&& (#[trigger] c[i]).vaddr == a[i].vaddr
        &&& c[i].flags == a[i].flags
        &&& c[i].backend == a[i].backend
        &&& c[i].pages@.len() == a[i].pages@.len()
        &&& forall|q: int|
            0 <= q < a[i].pages@.len() ==> {
                &&& (#[trigger] c[i].pages@[q]).is_some() == a[i].pages@[q].is_some()
                &&& c[i].pages@[q].is_some() ==> c[i].pages@[q].unwrap().paddr()
                    == a[i].pages@[q].unwrap().paddr()
            }
    } by {
        assert(b[i].vaddr == a[i].vaddr);
        assert forall|q: int| 0 <= q < a[i].pages@.len() implies {
            &&& (#[trigger] c[i].pages@[q]).is_some() == a[i].pages@[q].is_some()
            &&& c[i].pages@[q].is_some() ==> c[i].pages@[q].unwrap().paddr()
                == a[i].pages@[q].unwrap().paddr()
        } by {
            assert(b[i].pages@[q].is_some() == a[i].pages@[q].is_some());
        }
    }
}

/// Lists of areas with the same ranges find the same area for an address.
pub proof fn lemma_find_shape(olds: Seq<MapArea>, news: Seq<MapArea>, va: int, from: int)
    requires
        0 <= from,
        news.len() == olds.len(),
        forall|i: int|
            0 <= i < olds.len() ==> (#[trigger] news[i]).vaddr == olds[i].vaddr
                && news[i].pages@.len() == olds[i].pages@.len(),
    ensures
        spec_find(news, va, from) == spec_find(olds, va, from),
    decreases olds.len() - from,
{
    if from < olds.len() {
        assert(news[from].vaddr == olds[from].vaddr);
        if !olds[from].covers(va) {
            lemma_find_shape(olds, news, va, from + 1);
        }
    }
}

/// `c` is a copy of `a`: the same range, permissions and backend, the same
/// slots filled, and the same bytes in them.
pub open spec fn is_copy(c: MapArea, a: MapArea) -> bool {
    &&& c.vaddr == a.vaddr
    &&& c.flags == a.flags
    &&& c.backend == a.backend
    &&& c.pages@.len() == a.pages@.len()
    &&& forall|q: int|
        0 <= q < a.pages@.len() ==> {
            &&& (#[trigger] c.pages@[q]).is_some() == a.pages@[q].is_some()
            &&& c.pages@[q].is_some() ==> c.pages@[q].unwrap().bytes() == a.pages@[q].unwrap().bytes()
        }
}

/// The pages of the copy `c` of `a` lie in consecutive frames from `base`
/// on, in the order of their slots.
pub open spec fn copy_frames(c: MapArea, a: MapArea, base: int) -> bool {
    forall|q: int|
        0 <= q < a.pages@.len() && (#[trigger] c.pages@[q]).is_some() ==> c.pages@[q].unwrap().paddr()
            == base + 4096 * a.spec_resident_count(q)
}

/// Number of resident pages in the first `upto` areas.
pub open spec fn total_resident(areas: Seq<MapArea>, upto: int) -> int
    decreases upto,
{
    if upto <= 0 {
        0
    } else {
        total_resident(areas, upto - 1) + areas[upto - 1].spec_resident_count(
            areas[upto - 1].pages@.len() as int,
        )
    }
}

/// The counts of resident pages are not negative and grow with the prefix.
pub proof fn lemma_resident_count(a: MapArea, lo: int, hi: int)
    requires
        0 <= lo <= hi,
    ensures
        0 <= a.spec_resident_count(lo) <= a.spec_resident_count(hi),
    decreases hi,
{
    if lo < hi {
        lemma_resident_count(a, lo, hi - 1);
    } else if hi > 0 {
        lemma_resident_count(a, lo - 1, hi - 1);
    }
}

/// The totals of resident pages are not negative and grow with the prefix.
pub proof fn lemma_total_resident(areas: Seq<MapArea>, lo: int, hi: int)
    requires
        0 <= lo <= hi,
    ensures
        0 <= total_resident(areas, lo) <= total_resident(areas, hi),
    decreases hi,
{
    if hi > 0 {
        lemma_resident_count(areas[hi - 1], 0, areas[hi - 1].pages@.len() as int);
        if lo < hi {
            lemma_total_resident(areas, lo, hi - 1);
        } else {
            lemma_total_resident(areas, lo - 1, hi - 1);
        }
    }
}

/// Where `spec_find` finds an area, the area covers the address and none before it does.
pub proof fn lemma_find(areas: Seq<MapArea>, va: int, from: int)
    requires
        0 <= from,
    ensures
        spec_find(areas, va, from) >= 0 ==> from <= spec_find(areas, va, from) < areas.len()
            && areas[spec_find(areas, va, from)].covers(va),
        spec_find(areas, va, from) < 0 ==> spec_find(areas, va, from) == -1 && forall|i: int|
            from <= i < areas.len() ==> !(#[trigger] areas[i]).covers(va),
        forall|i: int|
            from <= i < areas.len() && i < spec_find(areas, va, from) ==> !(#[trigger] areas[i]).covers(
                va,
            ),
    decreases areas.len() - from,
{
    if from < areas.len() && !areas[from].covers(va) {
        lemma_find(areas, va, from + 1);
    }
}

/// What resolving a page fault at `addr` does to the areas: the slot of the
/// page in the area that covers `addr` is filled with a page in the frame at
/// `paddr`, which holds what the backend of the area holds for the page,
/// or zeros. Nothing else changes.
pub open spec fn page_fault_post(
    olds: Seq<MapArea>,
    news: Seq<MapArea>,
    addr: int,
    files: Seq<Seq<u8>>,
    paddr: int,
) -> bool {
    let idx = spec_find(olds, addr, 0);
    let before = olds[idx];
    let after = news[idx];
    let slot = before.slot_of(addr);
    &&& news.len() == olds.len()
    &&& forall|j: int| 0 <= j < olds.len() && j != idx ==> #[trigger] news[j] == olds[j]
    &&& after.vaddr == before.vaddr
    &&& after.flags == before.flags
    &&& after.backend == before.backend
    &&& after.pages@.len() == before.pages@.len()
    &&& after.resident(slot)
    &&& after.pages@[slot].unwrap().paddr() == paddr
    &&& after.pages@[slot].unwrap().bytes() == before.fill_bytes(slot, files)
    &&& forall|q: int| 0 <= q < before.pages@.len() && q != slot ==> after.pages@[q] == before.pages@[q]
}

/// What `munmap` does: the range, with its size rounded up to whole pages,
/// is freed as `split_layout` says; what is given up is written back to the
/// stored files; the pieces that stay take fresh frames; and the frames of
/// the areas that were split go back to the pool.
pub open spec fn munmap_post(
    pre: MemorySet,
    post: MemorySet,
    start: usize,
    size: usize,
    pre_files: Seq<Seq<u8>>,
    post_files: Seq<Seq<u8>>,
    pre_pool: FrameAllocator,
    post_pool: FrameAllocator,
) -> bool {
    let end = start + spec_align_up_4k(size as int);
    &&& split_post(pre.areas(), post.areas(), start as int, end, pre_files, pre_pool.next_paddr() as int)
    &&& post_files == files_after_split(
        pre.areas(),
        start as int,
        end,
        pre.areas().len() as int,
        pre_files,
    )
    &&& post_pool.next_paddr() == pre_pool.next_paddr() + 4096 * split_pages(
        pre.areas(),
        start as int,
        end,
        pre.areas().len() as int,
    )
    &&& post_pool.returned() == pre_pool.returned() + split_released(
        pre.areas(),
        start as int,
        end,
        pre.areas().len() as int,
    )
}

/// What `mmap` does to an address space. A fixed mapping at address 0 is
/// refused: the result is -1 and nothing changes. Else the result is the
/// address of the mapping, and the last area is the new one, with no page
/// resident. Before it come, for a fixed mapping, the areas that freeing the
/// range leaves (see `split_layout`), and for one that is not fixed, the
/// areas as they were; such a mapping lies at least a page above all of them.
pub open spec fn mmap_post(
    pre: MemorySet,
    post: MemorySet,
    start: usize,
    size: usize,
    flags: MappingFlags,
    fixed: bool,
    backend: Option<MemBackend>,
    pre_files: Seq<Seq<u8>>,
    post_files: Seq<Seq<u8>>,
    pre_pool: FrameAllocator,
    post_pool: FrameAllocator,
    r: isize,
) -> bool {
    &&& fixed && start == 0 ==> {
        &&& r == -1
        &&& post.areas() == pre.areas()
        &&& post_pool.next_paddr() == pre_pool.next_paddr()
        &&& post_pool.returned() == pre_pool.returned()
        &&& post_files == pre_files
    }
    &&& !(fixed && start == 0) ==> {
        &&& r == pre.spec_mmap_start(start as int, fixed)
        &&& post.areas().len() >= 1
        &&& is_lazy_region(post.areas().last(), r as int, spec_pages_for(size as int), flags, backend)
    }
    &&& fixed && start != 0 ==> {
        &&& split_post(
            pre.areas(),
            post.areas().drop_last(),
            start as int,
            start + spec_align_up_4k(size as int),
            pre_files,
            pre_pool.next_paddr() as int,
        )
        &&& post_files == files_after_split(
            pre.areas(),
            start as int,
            start + spec_align_up_4k(size as int),
            pre.areas().len() as int,
            pre_files,
        )
        &&& post_pool.next_paddr() == pre_pool.next_paddr() + 4096 * split_pages(
            pre.areas(),
            start as int,
            start + spec_align_up_4k(size as int),
            pre.areas().len() as int,
        )
        &&& post_pool.returned() == pre_pool.returned() + split_released(
            pre.areas(),
            start as int,
            start + spec_align_up_4k(size as int),
            pre.areas().len() as int,
        )
    }
    &&& !fixed ==> {
        &&& post.areas().drop_last() == pre.areas()
        &&& post_pool.next_paddr() == pre_pool.next_paddr()
        &&& post_pool.returned() == pre_pool.returned()
        &&& post_files == pre_files
        &&& r >= pre.spec_max_va() + 4096
    }
}

/// What `mprotect` does to the areas: the first area that contains the range
/// gets the permissions `flags` and is unchanged otherwise, and the result
/// is 0; where no area contains the range, the result is -1. All other areas
/// are unchanged.
pub open spec fn mprotect_post(
    olds: Seq<MapArea>,
    news: Seq<MapArea>,
    start: int,
    end: int,
    flags: MappingFlags,
    r: isize,
) -> bool {
    let idx = spec_find_containing(olds, start, end, 0);
    &&& news.len() == olds.len()
    &&& r == (if idx >= 0 {
        0int
    } else {
        -1int
    })
    &&& forall|j: int| 0 <= j < olds.len() && j != idx ==> #[trigger] news[j] == olds[j]
    &&& idx >= 0 ==> {
        &&& news[idx].flags == flags
        &&& news[idx].vaddr == olds[idx].vaddr
        &&& news[idx].backend == olds[idx].backend
        &&& news[idx].pages@ == olds[idx].pages@
    }
}

/// The page table of one task and the areas that are mapped in it.
pub struct MemorySet {
    page_table: PageTable,
    owned_mem: Vec<MapArea>,
    kernel: Vec<MemRegion>,
    entry: usize,
}

impl MemorySet {
    /// The areas, in the order in which they were created.
    pub closed spec fn areas(&self) -> Seq<MapArea> {
        self.owned_mem@
    }

    /// The entries of the page table.
    pub closed spec fn table(&self) -> Map<usize, PageEntry> {
        self.page_table@
    }

    /// The page table.
    pub closed spec fn spec_page_table(&self) -> PageTable {
        self.page_table
    }

    /// The address at which the loaded program starts.
    pub closed spec fn spec_entry(&self) -> usize {
        self.entry
    }

    /// The kernel regions that are mapped in the address space.
    pub closed spec fn kernel_regions(&self) -> Seq<MemRegion> {
        self.kernel@
    }

    /// The invariant of an address space: the areas are well-formed and
    /// pairwise disjoint, the table agrees with each of them and maps every
    /// kernel region, no area overlaps a kernel region, and the table holds
    /// nothing else.
    pub open spec fn wf(&self) -> bool {
        &&& self.spec_page_table().wf()
        &&& self.spec_page_table()@ == self.table()
        &&& areas_wf(self.areas())
        &&& areas_disjoint(self.areas())
        &&& areas_mapped(self.areas(), self.table())
        &&& table_owned(self.areas(), self.kernel_regions(), self.table())
        &&& kernel_ok(self.kernel_regions())
        &&& kernel_mapped(self.kernel_regions(), self.kernel_regions().len() as int, self.table())
        &&& kernel_apart(self.areas(), self.kernel_regions())
    }

    /// The index of the area that covers `va`, or -1.
    pub open spec fn spec_area_of(&self, va: int) -> int {
        spec_find(self.areas(), va, 0)
    }

    /// The largest end address among the areas, or 0.
    pub open spec fn spec_max_va(&self) -> int {
        spec_max_end(self.areas(), self.areas().len() as int)
    }

    /// Whether `[start, end)` lies apart from every area and kernel region.
    pub open spec fn spec_range_free(&self, start: int, end: int) -> bool {
        range_free(self.areas(), self.kernel_regions(), start, end)
    }

    /// Creates an address space without areas, in which every region of
    /// `regions` is mapped.
    pub fn new_with_kernel_mapped(regions: &[MemRegion], frames: &mut FrameAllocator) -> (ms: Self)
        requires
            old(frames).wf(),
            old(frames).spec_free_frames() >= 1,
            kernel_ok(regions@),
        ensures
            final(frames).wf(),
            final(frames).next_paddr() == old(frames).next_paddr() + 4096,
            final(frames).end_paddr() == old(frames).end_paddr(),
            final(frames).returned() == old(frames).returned(),
            ms.wf(),
            ms.areas().len() == 0,
            ms.kernel_regions() == regions@,
            ms.spec_page_table().root() == old(frames).next_paddr(),
            ms.spec_entry() == 0,
    {
        let mut page_table = PageTable::try_new(frames).unwrap();
        let mut kernel: Vec<MemRegion> = Vec::new();
        let mut k: usize = 0;
        while k < regions.len()
            invariant
                k <= regions@.len(),
                kernel_ok(regions@),
                page_table.wf(),
                page_table.root() == old(frames).next_paddr(),
                kernel@ == regions@.subrange(0, k as int),
                kernel_mapped(regions@, k as int, page_table@),
                forall|va: usize| #[trigger]
                    page_table@.contains_key(va) ==> is_kernel_page(regions@, k as int, va as int),
            decreases regions@.len() - k,
        {
            let r = regions[k];
            let ghost before = page_table@;
            assert(spec_range_unmapped(before, r.vaddr as int, r.size as int)) by {
                assert forall|va: usize|
                    page_in(va as int, r.vaddr as int, r.size as int) implies !#[trigger] before.contains_key(
                    va,
                ) by {
                    if before.contains_key(va) {
                        let q = choose|q: int| 0 <= q < k && (#[trigger] regions@[q]).covers(va as int);
                        assert(regions@[q].apart(regions@[k as int].vaddr as int, regions@[k as int].vaddr + regions@[k as int].size));
                    }
                }
            }
            let mapped = page_table.map_region(r.vaddr, r.paddr, r.size, r.flags, true);
            assert(mapped.is_ok());
            kernel.push(r);
            proof {
                assert(kernel@ =~= regions@.subrange(0, k + 1));
                lemma_frame_kernel(regions@, k as int, before, page_table@, r.vaddr as int, r.size as int);
                assert(regions@[k as int].covers(r.vaddr as int) || r.size == 0);
                assert forall|va: usize| #[trigger]
                    page_table@.contains_key(va) implies is_kernel_page(regions@, k + 1, va as int) by {
                    if before.contains_key(va) {
                        let q = choose|q: int| 0 <= q < k && (#[trigger] regions@[q]).covers(va as int);
                        assert(regions@[q].covers(va as int));
                    } else {
                        assert(regions@[k as int].covers(va as int));
                    }
                }
            }
            k += 1;
        }
        assert(kernel@ =~= regions@);
        MemorySet { page_table, owned_mem: Vec::new(), kernel, entry: 0 }
    }

    /// The address at which the loaded program starts.
    pub fn entry(&self) -> (e: usize)
        ensures
            e == self.spec_entry(),
    {
        self.entry
    }

    /// Sets the address at which the loaded program starts.
    pub fn set_entry(&mut self, entry: usize)
        ensures
            final(self).spec_entry() == entry,
            final(self).areas() == old(self).areas(),
            final(self).kernel_regions() == old(self).kernel_regions(),
            final(self).spec_page_table() == old(self).spec_page_table(),
            final(self).table() == old(self).table(),
    {
        self.entry = entry;
    }

    /// The physical address of the root of the page table.
    pub fn page_table_root_ppn(&self) -> (p: usize)
        ensures
            p == self.spec_page_table().root(),
    {
        self.page_table.root_paddr()
    }

    /// The largest end address among the areas, or 0 where there is none.
    pub fn max_va(&self) -> (va: usize)
        requires
            self.wf(),
        ensures
            va == self.spec_max_va(),
    {
        let mut best: usize = 0;
        let mut i: usize = 0;
        while i < self.owned_mem.len()
            invariant
                i <= self.owned_mem@.len(),
                areas_wf(self.owned_mem@),
                best == spec_max_end(self.owned_mem@, i as int),
            decreases self.owned_mem@.len() - i,
        {
            assert(self.owned_mem@[i as int].wf());
            let end = self.owned_mem[i].end_va();
            if end > best {
                best = end;
            }
            i += 1;
        }
        best
    }

    /// What an access to `va` resolves to in the page table: the physical
    /// address and the permissions; `None` where the access faults.
    pub fn translate(&self, va: usize) -> (r: Option<(usize, MappingFlags)>)
        requires
            self.wf(),
        ensures
            r == self.spec_page_table().spec_query(va),
    {
        match self.page_table.query(va) {
            Ok(t) => Some(t),
            Err(_) => None,
        }
    }

    /// Number of areas.
    pub fn area_count(&self) -> (n: usize)
        ensures
            n == self.areas().len(),
    {
        self.owned_mem.len()
    }

    /// The area with index `i`.
    pub fn area(&self, i: usize) -> (a: &MapArea)
        requires
            i < self.areas().len(),
        ensures
            *a == self.areas()[i as int],
    {
        &self.owned_mem[i]
    }

    /// Whether `[start, end)` lies apart from every area and kernel region.
    pub fn range_free(&self, start: usize, end: usize) -> (r: bool)
        requires
            self.wf(),
        ensures
            r == self.spec_range_free(start as int, end as int),
    {
        let mut i: usize = 0;
        while i < self.owned_mem.len()
            invariant
                i <= self.owned_mem@.len(),
                areas_wf(self.owned_mem@),
                forall|j: int| 0 <= j < i ==> area_apart(#[trigger] self.owned_mem@[j], start as int, end as int),
            decreases self.owned_mem@.len() - i,
        {
            assert(self.owned_mem@[i as int].wf());
            let a = &self.owned_mem[i];
            if !(a.end_va() <= start || end <= a.vaddr) {
                return false;
            }
            i += 1;
        }
        let mut r: usize = 0;
        while r < self.kernel.len()
            invariant
                r <= self.kernel@.len(),
                kernel_ok(self.kernel@),
                forall|q: int| 0 <= q < r ==> (#[trigger] self.kernel@[q]).apart(start as int, end as int),
            decreases self.kernel@.len() - r,
        {
            assert(self.kernel@[r as int].ok());
            let region = &self.kernel[r];
            if !(region.vaddr + region.size <= start || end <= region.vaddr) {
                return false;
            }
            r += 1;
        }
        true
    }

    /// The index of the area that covers `va`.
    pub fn find_area(&self, va: usize) -> (r: Option<usize>)
        requires
            self.wf(),
        ensures
            r == (if self.spec_area_of(va as int) >= 0 {
                Some(self.spec_area_of(va as int) as usize)
            } else {
                None
            }),
            r.is_some() ==> r.unwrap() < self.areas().len() && self.areas()[r.unwrap() as int].covers(
                va as int,
            ),
    {
        let mut i: usize = 0;
        while i < self.owned_mem.len()
            invariant
                i <= self.owned_mem@.len(),
                areas_wf(self.owned_mem@),
                spec_find(self.owned_mem@, va as int, 0) == spec_find(self.owned_mem@, va as int, i as int),
            decreases self.owned_mem@.len() - i,
        {
            assert(self.owned_mem@[i as int].wf());
            let a = &self.owned_mem[i];
            if a.vaddr <= va && va < a.end_va() {
                return Some(i);
            }
            i += 1;
        }
        None
    }

    /// Creates the area `[vaddr, vaddr + size)`, with `size` rounded up to
    /// whole pages, and appends it to the areas. With `data`, the area is
    /// backed by fresh pages that hold `data` followed by zeros; without,
    /// its pages are brought in on first access.
    pub fn new_region(
        &mut self,
        vaddr: usize,
        size: usize,
        flags: MappingFlags,
        data: Option<&[u8]>,
        backend: Option<MemBackend>,
        frames: &mut FrameAllocator,
    )
        requires
            old(self).wf(),
            old(frames).wf(),
            vaddr as int % 4096 == 0,
            vaddr + spec_pages_for(size as int) * 4096 <= usize::MAX,
            spec_pages_for(size as int) * 4096 <= i64::MAX,
            backend.is_some() ==> backend.unwrap().cursor + spec_pages_for(size as int) * 4096
                <= usize::MAX,
            old(self).spec_range_free(vaddr as int, vaddr + spec_pages_for(size as int) * 4096),
            data.is_some() ==> {
                &&& size > 0
                &&& data.unwrap()@.len() <= spec_pages_for(size as int) * 4096
                &&& old(frames).spec_free_frames() >= spec_pages_for(size as int)
            },
        ensures
            final(self).wf(),
            final(self).kernel_regions() == old(self).kernel_regions(),
            final(self).spec_entry() == old(self).spec_entry(),
            final(self).spec_page_table().root() == old(self).spec_page_table().root(),
            final(self).areas().len() == old(self).areas().len() + 1,
            forall|i: int|
                0 <= i < old(self).areas().len() ==> final(self).areas()[i] == old(self).areas()[i],
            match data {
                Some(d) => is_loaded_region(
                    final(self).areas().last(),
                    vaddr as int,
                    spec_pages_for(size as int),
                    flags,
                    backend,
                    d@,
                    old(frames).next_paddr() as int,
                ),
                None => is_lazy_region(
                    final(self).areas().last(),
                    vaddr as int,
                    spec_pages_for(size as int),
                    flags,
                    backend,
                ),
            },
            final(frames).wf(),
            final(frames).end_paddr() == old(frames).end_paddr(),
            final(frames).returned() == old(frames).returned(),
            final(frames).next_paddr() == old(frames).next_paddr() + (if data.is_some() {
                spec_pages_for(size as int) * 4096
            } else {
                0
            }),
    {
        let num_pages: usize = pages_for(size);
        let ghost end = vaddr + num_pages * 4096;
        let ghost old_table = self.page_table@;
        proof {
            lemma_free_unmapped(self.owned_mem@, self.kernel@, old_table, vaddr as int, end);
        }
        let area = match data {
            Some(data) => {
                let mut area = MapArea::new_alloc(
                    vaddr,
                    num_pages,
                    flags,
                    backend,
                    &mut self.page_table,
                    frames,
                );
                let ghost fresh = area;
                area.fill(0);
                let ghost zeroed = area;
                area.write_bytes(0, data);
                proof {
                    assert forall|va: usize| #[trigger]
                        page_in(
                            va as int,
                            area.vaddr as int,
                            area.spec_size(),
                        ) implies self.page_table@.contains_key(va) && self.page_table@[va]
                        == area.spec_entry(area.slot_of(va as int)) by {
                        assert(page_in(va as int, fresh.vaddr as int, fresh.spec_size()));
                        let i = area.slot_of(va as int);
                        assert(fresh.pages@[i].is_some());
                        assert(zeroed.pages@[i].is_some());
                        assert(area.pages@[i].is_some());
                    }
                    assert forall|k: int| 0 <= k < num_pages * 4096 implies #[trigger] area.spec_byte(k)
                        == (if k < data@.len() {
                        data@[k]
                    } else {
                        0u8
                    }) by {
                        assert(zeroed.pages@[k / 4096].is_some());
                        assert(zeroed.resident(k / 4096));
                    }
                    assert forall|i: int| 0 <= i < num_pages implies (#[trigger] area.pages@[i]).is_some()
                        && area.pages@[i].unwrap().paddr() == old(frames).next_paddr() + i * 4096 by {
                        assert(fresh.pages@[i].is_some());
                        assert(zeroed.pages@[i].is_some());
                    }
                }
                area
            },
            None => MapArea::new_lazy(vaddr, num_pages, flags, backend, &mut self.page_table),
        };
        let ghost new_table = self.page_table@;
        self.owned_mem.push(area);
        proof {
            let olds = old(self).owned_mem@;
            let news = self.owned_mem@;
            assert(news =~= olds.push(area));
            assert(same_outside(old_table, new_table, vaddr as int, num_pages * 4096));
            assert forall|i: int| 0 <= i < news.len() implies (#[trigger] news[i]).mapped_in(
                new_table,
            ) by {
                if i < olds.len() {
                    assert(area_apart(olds[i], vaddr as int, end));
                    lemma_frame_area(olds[i], old_table, new_table, vaddr as int, num_pages * 4096);
                }
            }
            assert forall|i: int, j: int|
                0 <= i < news.len() && 0 <= j < news.len() && i != j implies area_apart(
                #[trigger] news[i],
                (#[trigger] news[j]).vaddr as int,
                news[j].spec_end_va(),
            ) by {
                if i < olds.len() && j < olds.len() {
                    assert(area_apart(olds[i], olds[j].vaddr as int, olds[j].spec_end_va()));
                } else if i < olds.len() {
                    assert(area_apart(olds[i], vaddr as int, end));
                } else {
                    assert(area_apart(olds[j], vaddr as int, end));
                }
            }
            assert forall|va: usize| #[trigger] new_table.contains_key(va) implies is_user_page(
                news,
                va as int,
            ) || is_kernel_page(self.kernel@, self.kernel@.len() as int, va as int) by {
                if old_table.contains_key(va) {
                    if is_user_page(olds, va as int) {
                        let i = choose|i: int| 0 <= i < olds.len() && (#[trigger] olds[i]).covers(va as int);
                        assert(news[i].covers(va as int));
                    }
                } else {
                    assert(news[olds.len() as int].covers(va as int));
                }
            }
            lemma_frame_kernel(
                self.kernel@,
                self.kernel@.len() as int,
                old_table,
                new_table,
                vaddr as int,
                num_pages * 4096,
            );
            assert forall|i: int, r: int|
                0 <= i < news.len() && 0 <= r < self.kernel@.len() implies (#[trigger] self.kernel@[r]).apart(
                (#[trigger] news[i]).vaddr as int,
                news[i].spec_end_va(),
            ) by {
                if i < olds.len() {
                    assert(self.kernel@[r].apart(olds[i].vaddr as int, olds[i].spec_end_va()));
                } else {
                    assert(self.kernel@[r].apart(vaddr as int, end));
                }
            }
        }
    }

    /// Fills the empty slot `slot` of the area with index `idx` with a
    /// physical page taken from the pool that holds `bytes`.
    pub fn install_page(&mut self, idx: usize, slot: usize, bytes: &[u8], frames: &mut FrameAllocator)
        requires
            old(self).wf(),
            old(frames).wf(),
            old(frames).spec_single_frames() >= 1,
            idx < old(self).areas().len(),
            slot < old(self).areas()[idx as int].pages@.len(),
            old(self).areas()[idx as int].pages@[slot as int].is_none(),
            bytes@.len() == 4096,
        ensures
            final(self).wf(),
            final(self).kernel_regions() == old(self).kernel_regions(),
            final(self).spec_entry() == old(self).spec_entry(),
            final(self).spec_page_table().root() == old(self).spec_page_table().root(),
            final(self).areas().len() == old(self).areas().len(),
            forall|j: int|
                0 <= j < old(self).areas().len() && j != idx ==> #[trigger] final(self).areas()[j]
                    == old(self).areas()[j],
            ({
                let before = old(self).areas()[idx as int];
                let after = final(self).areas()[idx as int];
                &&& after.vaddr == before.vaddr
                &&& after.flags == before.flags
                &&& after.backend == before.backend
                &&& after.pages@.len() == before.pages@.len()
                &&& after.resident(slot as int)
                &&& after.pages@[slot as int].unwrap().paddr() == old(frames).spec_next_page()
                &&& after.pages@[slot as int].unwrap().bytes() == bytes@
                &&& forall|q: int|
                    0 <= q < before.pages@.len() && q != slot ==> after.pages@[q]
                        == before.pages@[q]
            }),
            final(frames).wf(),
            old(frames).page_taken(*final(frames)),
    {
        let ghost old_table = self.page_table@;
        let ghost olds = self.owned_mem@;
        assert(olds[idx as int].wf());
        assert(olds[idx as int].mapped_in(old_table));
        let page_va: usize = self.owned_mem[idx].vaddr + slot * PAGE_SIZE_4K;
        self.owned_mem[idx].install_page(slot, page_va, bytes, &mut self.page_table, frames);
        proof {
            let page_va = olds[idx as int].vaddr + slot * 4096;
            assert(same_outside(old_table, self.page_table@, page_va, 4096));
            assert(same_outside(
                old_table,
                self.page_table@,
                olds[idx as int].vaddr as int,
                olds[idx as int].spec_size(),
            ));
            lemma_update_area(olds, self.owned_mem@, idx as int, self.kernel@, old_table, self.page_table@);
        }
    }

    /// Resolves a page fault at `addr`: the area that covers `addr` brings in
    /// the page, from its backend or zero-filled, and the table maps the
    /// page to the new frame with the permissions of the area; no other
    /// entry, area or slot changes. The caller flushes the TLB afterwards.
    pub fn handle_page_fault(
        &mut self,
        addr: usize,
        flags: MappingFlags,
        frames: &mut FrameAllocator,
        fs: &FileSystem,
    )
        requires
            old(self).wf(),
            old(frames).wf(),
            old(frames).spec_single_frames() >= 1,
            old(self).spec_area_of(addr as int) >= 0,
            old(self).areas()[old(self).spec_area_of(addr as int)].flags.spec_contains(flags),
            !old(self).areas()[old(self).spec_area_of(addr as int)].resident(
                old(self).areas()[old(self).spec_area_of(addr as int)].slot_of(addr as int),
            ),
        ensures
            final(self).wf(),
            final(self).kernel_regions() == old(self).kernel_regions(),
            final(self).spec_entry() == old(self).spec_entry(),
            final(self).spec_page_table().root() == old(self).spec_page_table().root(),
            page_fault_post(
                old(self).areas(),
                final(self).areas(),
                addr as int,
                fs.files(),
                old(frames).spec_next_page() as int,
            ),
            final(self).spec_byte_at(addr as int).is_some(),
            final(self).table() == spec_fill(
                old(self).table(),
                addr - addr % 4096,
                4096,
                Some(old(frames).spec_next_page()),
                old(self).areas()[old(self).spec_area_of(addr as int)].flags,
            ),
            final(frames).wf(),
            old(frames).page_taken(*final(frames)),
    {
        proof {
            lemma_find(self.owned_mem@, addr as int, 0);
        }
        let idx: usize = self.find_area(addr).unwrap();
        let ghost old_table = self.page_table@;
        let ghost olds = self.owned_mem@;
        assert(olds[idx as int].wf());
        assert(olds[idx as int].mapped_in(old_table));
        self.owned_mem[idx].handle_page_fault(addr, flags, &mut self.page_table, frames, fs);
        proof {
            let page_va = addr - addr % 4096;
            assert(same_outside(old_table, self.page_table@, page_va, 4096));
            assert(same_outside(
                old_table,
                self.page_table@,
                olds[idx as int].vaddr as int,
                olds[idx as int].spec_size(),
            ));
            lemma_update_area(olds, self.owned_mem@, idx as int, self.kernel@, old_table, self.page_table@);
            lemma_find_shape(olds, self.owned_mem@, addr as int, 0);
        }
    }

    /// Takes the area with index `i` out of the address space and removes
    /// the entries of its pages from the table.
    pub fn take_area(&mut self, i: usize) -> (area: MapArea)
        requires
            old(self).wf(),
            i < old(self).areas().len(),
        ensures
            final(self).wf(),
            area == old(self).areas()[i as int],
            final(self).areas() == old(self).areas().remove(i as int),
            final(self).kernel_regions() == old(self).kernel_regions(),
            final(self).spec_entry() == old(self).spec_entry(),
            final(self).spec_page_table().root() == old(self).spec_page_table().root(),
            final(self).table() == spec_clear(old(self).table(), area.vaddr as int, area.spec_size()),
    {
        let ghost olds = self.owned_mem@;
        let ghost old_table = self.page_table@;
        let area = self.owned_mem.remove(i);
        assert(area.wf());
        assert(area.mapped_in(old_table));
        let size = area.size();
        assert(crate::page_table::spec_range_mapped(old_table, area.vaddr as int, size as int));
        let unmapped = self.page_table.unmap_region(area.vaddr, size);
        assert(unmapped.is_ok());
        proof {
            let news = self.owned_mem@;
            let new_table = self.page_table@;
            assert(same_outside(old_table, new_table, area.vaddr as int, size as int));
            assert forall|j: int| 0 <= j < news.len() implies (#[trigger] news[j]).wf()
                && news[j].mapped_in(new_table) by {
                let k = if j < i { j } else { j + 1 };
                assert(news[j] == olds[k]);
                assert(olds[k].wf());
                assert(area_apart(olds[k], olds[i as int].vaddr as int, olds[i as int].spec_end_va()));
                lemma_frame_area(olds[k], old_table, new_table, area.vaddr as int, size as int);
            }
            assert forall|a: int, b: int|
                0 <= a < news.len() && 0 <= b < news.len() && a != b implies area_apart(
                #[trigger] news[a],
                (#[trigger] news[b]).vaddr as int,
                news[b].spec_end_va(),
            ) by {
                let ka = if a < i { a } else { a + 1 };
                let kb = if b < i { b } else { b + 1 };
                assert(area_apart(olds[ka], olds[kb].vaddr as int, olds[kb].spec_end_va()));
            }
            assert forall|va: usize| #[trigger] new_table.contains_key(va) implies is_user_page(
                news,
                va as int,
            ) || is_kernel_page(self.kernel@, self.kernel@.len() as int, va as int) by {
                assert(old_table.contains_key(va));
                if is_user_page(olds, va as int) {
                    let k = choose|k: int| 0 <= k < olds.len() && (#[trigger] olds[k]).covers(va as int);
                    if k == i {
                        assert(page_in(va as int, area.vaddr as int, size as int));
                    } else {
                        let j = if k < i { k } else { k - 1 };
                        assert(news[j] == olds[k]);
                        assert(news[j].covers(va as int));
                    }
                }
            }
            assert forall|r: int| 0 <= r < self.kernel@.len() implies (#[trigger] self.kernel@[r]).apart(
                area.vaddr as int,
                area.vaddr + size,
            ) by {
                assert(self.kernel@[r].apart(olds[i as int].vaddr as int, olds[i as int].spec_end_va()));
            }
            lemma_frame_kernel(
                self.kernel@,
                self.kernel@.len() as int,
                old_table,
                new_table,
                area.vaddr as int,
                size as int,
            );
            assert forall|a: int, r: int|
                0 <= a < news.len() && 0 <= r < self.kernel@.len() implies (#[trigger] self.kernel@[r]).apart(
                (#[trigger] news[a]).vaddr as int,
                news[a].spec_end_va(),
            ) by {
                let ka = if a < i { a } else { a + 1 };
                assert(self.kernel@[r].apart(olds[ka].vaddr as int, olds[ka].spec_end_va()));
            }
        }
        area
    }

    /// Splits the area with index `i`, which overlaps `[start, end)`: the
    /// area is taken out and unmapped, what lies of it below `start` and from
    /// `end` on is created anew from a copy of its bytes, and the area is
    /// written back to its file and given up: its frames go back to the pool.
    #[verifier::rlimit(60)]
    pub fn split_area_at(
        &mut self,
        i: usize,
        start: usize,
        end: usize,
        frames: &mut FrameAllocator,
        fs: &mut FileSystem,
    )
        requires
            old(self).wf(),
            old(frames).wf(),
            i < old(self).areas().len(),
            old(self).areas()[i as int].spec_overlap_with(start as int, end as int),
            start <= end,
            start as int % 4096 == 0,
            end as int % 4096 == 0,
            areas_backed(old(self).areas(), old(fs).files().len() as int),
            old(frames).spec_free_frames() >= left_pages(
                old(self).areas()[i as int],
                start as int,
                end as int,
            ) + right_pages(old(self).areas()[i as int], start as int, end as int),
        ensures
            final(self).wf(),
            final(self).kernel_regions() == old(self).kernel_regions(),
            final(self).spec_entry() == old(self).spec_entry(),
            final(self).spec_page_table().root() == old(self).spec_page_table().root(),
            final(self).areas().len() == old(self).areas().len() - 1 + piece_count(
                old(self).areas()[i as int],
                start as int,
                end as int,
            ),
            forall|k: int|
                0 <= k < old(self).areas().len() - 1 ==> #[trigger] final(self).areas()[k] == old(
                    self,
                ).areas().remove(i as int)[k],
            has_left(old(self).areas()[i as int], start as int, end as int) ==> is_piece(
                final(self).areas()[old(self).areas().len() - 1],
                old(self).areas()[i as int],
                old(self).areas()[i as int].vaddr as int,
                start as int,
                old(fs).files(),
                old(frames).next_paddr() as int,
            ),
            has_right(old(self).areas()[i as int], start as int, end as int) ==> is_piece(
                final(self).areas()[old(self).areas().len() - 1 + (if has_left(
                    old(self).areas()[i as int],
                    start as int,
                    end as int,
                ) {
                    1int
                } else {
                    0int
                })],
                old(self).areas()[i as int],
                end as int,
                old(self).areas()[i as int].spec_end_va(),
                old(fs).files(),
                old(frames).next_paddr() + 4096 * left_pages(
                    old(self).areas()[i as int],
                    start as int,
                    end as int,
                ),
            ),
            forall|k: int|
                old(self).areas().len() - 1 <= k < final(self).areas().len() ==> area_apart(
                    #[trigger] final(self).areas()[k],
                    start as int,
                    end as int,
                ),
            areas_backed(final(self).areas(), old(fs).files().len() as int),
            final(fs).open@ == old(fs).open@,
            final(fs).paths() == old(fs).paths(),
            final(fs).files() == old(self).areas()[i as int].synced_all(old(fs).files()),
            final(frames).wf(),
            final(frames).end_paddr() == old(frames).end_paddr(),
            final(frames).returned() == old(frames).returned() + old(self).areas()[i as int].spec_frames(
                old(self).areas()[i as int].pages@.len() as int,
            ),
            final(frames).next_paddr() == old(frames).next_paddr() + 4096 * (left_pages(
                old(self).areas()[i as int],
                start as int,
                end as int,
            ) + right_pages(old(self).areas()[i as int], start as int, end as int)),
    {
        let ghost cur0 = self.owned_mem@;
        let ghost s = start as int;
        let ghost e = end as int;
        let ghost nfiles = fs.files().len() as int;
        assert(cur0[i as int].wf());
        assert(cur0[i as int].backed_by(nfiles));
        let area = self.take_area(i);
        let ghost cur1 = self.owned_mem@;
        let area_start: usize = area.vaddr;
        let area_end: usize = area.end_va();
        let data = area.as_slice(fs);
        proof {
            assert forall|k: int| 0 <= k < cur1.len() implies area_apart(
                #[trigger] cur1[k],
                area.vaddr as int,
                area.spec_end_va(),
            ) && cur1[k].backed_by(nfiles) by {
                let k0 = if k < i { k } else { k + 1 };
                assert(cur1[k] == cur0[k0]);
                assert(area_apart(cur0[k0], cur0[i as int].vaddr as int, cur0[i as int].spec_end_va()));
                assert(cur0[k0].backed_by(nfiles));
            }
            assert forall|r: int| 0 <= r < self.kernel@.len() implies (#[trigger] self.kernel@[r]).apart(
                area.vaddr as int,
                area.spec_end_va(),
            ) by {
                assert(self.kernel@[r].apart(cur0[i as int].vaddr as int, cur0[i as int].spec_end_va()));
            }
        }
        if area_start < start {
            let left = vstd::slice::slice_subrange(data.as_slice(), 0, start - area_start);
            proof {
                assert forall|k: int| 0 <= k < cur1.len() implies area_apart(
                    #[trigger] cur1[k],
                    area_start as int,
                    s,
                ) by {
                    assert(area_apart(cur1[k], area.vaddr as int, area.spec_end_va()));
                }
                assert forall|r: int| 0 <= r < self.kernel@.len() implies (#[trigger] self.kernel@[r]).apart(
                    area_start as int,
                    s,
                ) by {
                    assert(self.kernel@[r].apart(area.vaddr as int, area.spec_end_va()));
                }
            }
            self.new_region(area_start, start - area_start, area.flags, Some(left), area.backend, frames);
        }
        let ghost cur2 = self.owned_mem@;
        if end < area_end {
            let right = vstd::slice::slice_subrange(data.as_slice(), end - area_start, data.len());
            let backend = match area.backend {
                Some(b) => Some(b.clone_with_delta((end - area_start) as i64)),
                None => None,
            };
            proof {
                assert forall|k: int| 0 <= k < cur2.len() implies area_apart(
                    #[trigger] cur2[k],
                    e,
                    area_end as int,
                ) by {
                    if k < cur1.len() {
                        assert(cur2[k] == cur1[k]);
                        assert(area_apart(cur1[k], area.vaddr as int, area.spec_end_va()));
                    }
                }
                assert forall|r: int| 0 <= r < self.kernel@.len() implies (#[trigger] self.kernel@[r]).apart(
                    e,
                    area_end as int,
                ) by {
                    assert(self.kernel@[r].apart(area.vaddr as int, area.spec_end_va()));
                }
            }
            self.new_region(end, area_end - end, area.flags, Some(right), backend, frames);
        }
        let ghost cur3 = self.owned_mem@;
        area.sync_all(fs);
        area.release_pages(frames);
        proof {
            assert forall|k: int| 0 <= k < cur0.len() - 1 implies #[trigger] cur3[k] == cur0.remove(
                i as int,
            )[k] by {
                if k < cur2.len() {
                    assert(cur2[k] == cur1[k]);
                }
            }
            reveal(is_piece);
            if has_left(area, s, e) {
                assert(cur3[cur1.len() as int] == cur2[cur1.len() as int]);
            }
            assert forall|k: int| 0 <= k < cur3.len() implies (#[trigger] cur3[k]).backed_by(nfiles) by {
                if k < cur1.len() {
                    assert(cur3[k] == cur1[k]);
                }
            }
        }
    }

    /// Frees `[start, start + size)`: every area that overlaps the range is
    /// taken out and unmapped, what lies of it below and above the range is
    /// created anew from a copy of its bytes, and the area is written back
    /// to its file and given up, its frames going back to the pool. The caller flushes the TLB afterwards.
    pub fn split_for_area(
        &mut self,
        start: usize,
        size: usize,
        frames: &mut FrameAllocator,
        fs: &mut FileSystem,
    )
        requires
            old(self).wf(),
            old(frames).wf(),
            start as int % 4096 == 0,
            size as int % 4096 == 0,
            start + size <= usize::MAX,
            areas_backed(old(self).areas(), old(fs).files().len() as int),
            old(frames).spec_free_frames() >= split_pages(
                old(self).areas(),
                start as int,
                start + size,
                old(self).areas().len() as int,
            ),
        ensures
            final(self).wf(),
            final(self).kernel_regions() == old(self).kernel_regions(),
            final(self).spec_entry() == old(self).spec_entry(),
            final(self).spec_page_table().root() == old(self).spec_page_table().root(),
            split_post(
                old(self).areas(),
                final(self).areas(),
                start as int,
                start + size,
                old(fs).files(),
                old(frames).next_paddr() as int,
            ),
            areas_backed(final(self).areas(), old(fs).files().len() as int),
            final(fs).open@ == old(fs).open@,
            final(fs).paths() == old(fs).paths(),
            final(fs).files() == files_after_split(
                old(self).areas(),
                start as int,
                start + size,
                old(self).areas().len() as int,
                old(fs).files(),
            ),
            final(frames).wf(),
            final(frames).end_paddr() == old(frames).end_paddr(),
            final(frames).returned() == old(frames).returned() + split_released(
                old(self).areas(),
                start as int,
                start + size,
                old(self).areas().len() as int,
            ),
            final(frames).next_paddr() == old(frames).next_paddr() + 4096 * split_pages(
                old(self).areas(),
                start as int,
                start + size,
                old(self).areas().len() as int,
            ),
    {
        let end: usize = start + size;
        let n: usize = self.owned_mem.len();
        let ghost olds = self.owned_mem@;
        let ghost files0 = fs.files();
        let ghost nfiles = files0.len() as int;
        let ghost base = frames.next_paddr() as int;
        let ghost s = start as int;
        let ghost e = end as int;
        let mut i: usize = 0;
        let mut p: usize = 0;
        while p < n
            invariant
                p <= n,
                n == olds.len(),
                s == start,
                e == end,
                s <= e,
                s % 4096 == 0,
                e % 4096 == 0,
                nfiles == files0.len(),
                areas_wf(olds),
                i == count_kept(olds, s, e, p as int),
                self.owned_mem@.len() == i + (n - p) + count_pieces(olds, s, e, p as int),
                forall|k: int| i <= k < i + (n - p) ==> #[trigger] self.owned_mem@[k] == olds[k - i + p],
                split_layout(olds, self.owned_mem@, p as int, i + (n - p), s, e, files0, base),
                forall|k: int|
                    0 <= k < self.owned_mem@.len() && !(i <= k < i + (n - p)) ==> area_apart(
                        #[trigger] self.owned_mem@[k],
                        s,
                        e,
                    ),
                areas_backed(self.owned_mem@, nfiles),
                self.wf(),
                self.kernel@ == old(self).kernel@,
                self.entry == old(self).entry,
                self.page_table.root() == old(self).page_table.root(),
                fs.open@ == old(fs).open@,
                fs.paths() == old(fs).paths(),
                fs.files() == files_after_split(olds, s, e, p as int, files0),
                frames.wf(),
                frames.end_paddr() == old(frames).end_paddr(),
                frames.returned() == old(frames).returned() + split_released(olds, s, e, p as int),
                base == old(frames).next_paddr(),
                frames.next_paddr() == base + 4096 * split_pages(olds, s, e, p as int),
                old(frames).spec_free_frames() >= split_pages(olds, s, e, n as int),
                old(frames).wf(),
            decreases n - p,
        {
            let ghost cur0 = self.owned_mem@;
            proof {
                lemma_split_counts(olds, s, e, p as int + 1, n as int);
                lemma_split_counts(olds, s, e, p as int, p as int + 1);
                lemma_split_counts(olds, s, e, 0, p as int);
                lemma_files_after_split_len(olds, s, e, p as int, files0);
                assert(cur0[i as int] == olds[p as int]);
                assert(olds[p as int].wf());
            }
            assert(self.owned_mem@[i as int].wf());
            if self.owned_mem[i].overlap_with(start, end) {
                self.split_area_at(i, start, end, frames, fs);
                proof {
                    assert(frames.returned() =~= old(frames).returned() + split_released(
                        olds,
                        s,
                        e,
                        p as int + 1,
                    ));
                    lemma_split_step_removed(olds, cur0, self.owned_mem@, p as int, i as int, s, e, files0, base);
                }
            } else {
                proof {
                    lemma_split_step_kept(olds, cur0, p as int, i as int, s, e, files0, base);
                }
                i += 1;
            }
            p += 1;
        }
        proof {
            lemma_split_counts(olds, s, e, n as int, n as int);
        }
    }

    /// Frees `[start, start + size)`, with `size` rounded up to whole pages.
    /// What is given up is written back to its file. The caller flushes the
    /// TLB afterwards.
    pub fn munmap(&mut self, start: usize, size: usize, frames: &mut FrameAllocator, fs: &mut FileSystem)
        requires
            old(self).wf(),
            old(frames).wf(),
            start as int % 4096 == 0,
            size + 4096 <= usize::MAX,
            start + spec_align_up_4k(size as int) <= usize::MAX,
            areas_backed(old(self).areas(), old(fs).files().len() as int),
            old(frames).spec_free_frames() >= split_pages(
                old(self).areas(),
                start as int,
                start + spec_align_up_4k(size as int),
                old(self).areas().len() as int,
            ),
        ensures
            final(self).wf(),
            final(self).kernel_regions() == old(self).kernel_regions(),
            final(self).spec_entry() == old(self).spec_entry(),
            final(self).spec_page_table().root() == old(self).spec_page_table().root(),
            munmap_post(
                *old(self),
                *final(self),
                start,
                size,
                old(fs).files(),
                final(fs).files(),
                *old(frames),
                *final(frames),
            ),
            areas_backed(final(self).areas(), old(fs).files().len() as int),
            final(fs).open@ == old(fs).open@,
            final(fs).paths() == old(fs).paths(),
            final(fs).files().len() == old(fs).files().len(),
            final(frames).wf(),
            final(frames).end_paddr() == old(frames).end_paddr(),
    {
        proof {
            lemma_align_4k(size as int);
        }
        let size: usize = memory_addr::align_up_4k(size);
        proof {
            lemma_files_after_split_len(
                self.owned_mem@,
                start as int,
                start + size,
                self.owned_mem@.len() as int,
                fs.files(),
            );
        }
        self.split_for_area(start, size, frames, fs);
    }

    /// Where `mmap` places a mapping: at `start` when the place is fixed,
    /// else one page above the highest area, rounded up to a page boundary.
    pub open spec fn spec_mmap_start(&self, start: int, fixed: bool) -> int {
        if fixed {
            start
        } else {
            spec_align_up_4k(self.spec_max_va() + 4096)
        }
    }

    /// When `mmap` can place a mapping: the place is page-aligned, the range
    /// lies in the part of the address space whose addresses are
    /// non-negative as signed integers and apart from the kernel regions, the
    /// window of the backend's file can be addressed, and there are frames
    /// for what a fixed mapping splits off.
    pub open spec fn mmap_admissible(
        &self,
        start: int,
        size: int,
        fixed: bool,
        backend: Option<MemBackend>,
        nfiles: int,
        free_frames: int,
    ) -> bool {
        let at = self.spec_mmap_start(start, fixed);
        let len = spec_align_up_4k(size);
        &&& at % 4096 == 0
        &&& at + len <= isize::MAX
        &&& forall|r: int|
            0 <= r < self.kernel_regions().len() ==> (#[trigger] self.kernel_regions()[r]).apart(
                at,
                at + len,
            )
        &&& backend.is_some() ==> backend.unwrap().file < nfiles && backend.unwrap().cursor + len
            <= usize::MAX
        &&& fixed ==> free_frames >= split_pages(
            self.areas(),
            at,
            at + len,
            self.areas().len() as int,
        )
    }

    /// Maps `size` bytes, rounded up to whole pages, as an area whose pages
    /// are brought in on first access. A fixed mapping at address 0 is
    /// refused with -1. Any other fixed mapping first frees its range and
    /// is placed at `start`; a mapping that is not fixed is placed above all
    /// areas. Returns the address of the mapping. The caller flushes the TLB
    /// afterwards.
    pub fn mmap(
        &mut self,
        start: usize,
        size: usize,
        flags: MappingFlags,
        fixed: bool,
        backend: Option<MemBackend>,
        frames: &mut FrameAllocator,
        fs: &mut FileSystem,
    ) -> (r: isize)
        requires
            old(self).wf(),
            old(frames).wf(),
            areas_backed(old(self).areas(), old(fs).files().len() as int),
            size + 4096 <= usize::MAX,
            !(fixed && start == 0) ==> old(self).mmap_admissible(
                start as int,
                size as int,
                fixed,
                backend,
                old(fs).files().len() as int,
                old(frames).spec_free_frames() as int,
            ),
        ensures
            final(self).wf(),
            final(self).kernel_regions() == old(self).kernel_regions(),
            final(self).spec_entry() == old(self).spec_entry(),
            final(self).spec_page_table().root() == old(self).spec_page_table().root(),
            areas_backed(final(self).areas(), old(fs).files().len() as int),
            final(frames).wf(),
            final(frames).end_paddr() == old(frames).end_paddr(),
            final(fs).open@ == old(fs).open@,
            final(fs).paths() == old(fs).paths(),
            final(fs).files().len() == old(fs).files().len(),
            mmap_post(
                *old(self),
                *final(self),
                start,
                size,
                flags,
                fixed,
                backend,
                old(fs).files(),
                final(fs).files(),
                *old(frames),
                *final(frames),
                r,
            ),
    {
        proof {
            lemma_align_4k(size as int);
            lemma_max_end(self.owned_mem@, self.owned_mem@.len() as int);
        }
        let len: usize = memory_addr::align_up_4k(size);
        if fixed {
            if start == 0 {
                return -1;
            }
            proof {
                lemma_files_after_split_len(
                    self.owned_mem@,
                    start as int,
                    start + len,
                    self.owned_mem@.len() as int,
                    fs.files(),
                );
            }
            self.split_for_area(start, len, frames, fs);
            let ghost mid = self.owned_mem@;
            proof {
                assert forall|i: int| 0 <= i < mid.len() implies area_apart(
                    #[trigger] mid[i],
                    start as int,
                    start + len,
                ) by {}
            }
            self.new_region(start, len, flags, None, backend, frames);
            proof {
                assert(self.owned_mem@.drop_last() =~= mid);
                assert forall|i: int| 0 <= i < self.owned_mem@.len() implies (#[trigger] self.owned_mem@[i]).backed_by(
                    old(fs).files().len() as int,
                ) by {
                    if i < mid.len() {
                        assert(self.owned_mem@[i] == mid[i]);
                    }
                }
            }
            start as isize
        } else {
            let top: usize = self.max_va();
            proof {
                lemma_align_4k(top + 4096);
            }
            let at: usize = memory_addr::align_up_4k(top + PAGE_SIZE_4K);
            proof {
                assert forall|i: int| 0 <= i < self.owned_mem@.len() implies area_apart(
                    #[trigger] self.owned_mem@[i],
                    at as int,
                    at + len,
                ) by {}
            }
            self.new_region(at, len, flags, None, backend, frames);
            proof {
                assert(self.owned_mem@.drop_last() =~= old(self).owned_mem@);
                assert forall|i: int| 0 <= i < self.owned_mem@.len() implies (#[trigger] self.owned_mem@[i]).backed_by(
                    old(fs).files().len() as int,
                ) by {
                    if i < old(self).owned_mem@.len() {
                        assert(self.owned_mem@[i] == old(self).owned_mem@[i]);
                    }
                }
            }
            at as isize
        }
    }

    /// Changes the permissions of the first area that contains
    /// `[start, start + size)`, with `size` rounded up to whole pages, to
    /// `flags`, and rewrites the entries of its resident pages. Returns 0,
    /// or -1 where no area contains the range. The caller flushes the TLB
    /// afterwards.
    pub fn mprotect(&mut self, start: usize, size: usize, flags: MappingFlags) -> (r: isize)
        requires
            old(self).wf(),
            size + 4096 <= usize::MAX,
            start + spec_align_up_4k(size as int) <= usize::MAX,
        ensures
            final(self).wf(),
            final(self).kernel_regions() == old(self).kernel_regions(),
            final(self).spec_entry() == old(self).spec_entry(),
            final(self).spec_page_table().root() == old(self).spec_page_table().root(),
            mprotect_post(
                old(self).areas(),
                final(self).areas(),
                start as int,
                start + spec_align_up_4k(size as int),
                flags,
                r,
            ),
    {
        proof {
            lemma_align_4k(size as int);
        }
        let len: usize = memory_addr::align_up_4k(size);
        let end: usize = start + len;
        let mut i: usize = 0;
        while i < self.owned_mem.len()
            invariant
                i <= self.owned_mem@.len(),
                *self == *old(self),
                self.wf(),
                end == start + spec_align_up_4k(size as int),
                spec_find_containing(self.owned_mem@, start as int, end as int, 0)
                    == spec_find_containing(self.owned_mem@, start as int, end as int, i as int),
            decreases self.owned_mem@.len() - i,
        {
            assert(self.owned_mem@[i as int].wf());
            if self.owned_mem[i].contains(start, end) {
                let ghost old_table = self.page_table@;
                let ghost olds = self.owned_mem@;
                assert(olds[i as int].mapped_in(old_table));
                assert(spec_find_containing(olds, start as int, end as int, i as int) == i);
                self.owned_mem[i].set_flags(flags, &mut self.page_table);
                proof {
                    lemma_update_area(olds, self.owned_mem@, i as int, self.kernel@, old_table, self.page_table@);
                }
                return 0;
            }
            i += 1;
        }
        -1
    }

    /// The byte that a read of `va` observes, where `va` lies in a resident
    /// page of an area.
    pub open spec fn spec_byte_at(&self, va: int) -> Option<u8> {
        let i = self.spec_area_of(va);
        if i >= 0 && self.areas()[i].resident(self.areas()[i].slot_of(va)) {
            Some(self.areas()[i].spec_byte(va - self.areas()[i].vaddr))
        } else {
            None
        }
    }

    /// Every address of `[va, va + len)` lies in a resident page.
    pub open spec fn spec_range_resident(&self, va: int, len: int) -> bool {
        forall|x: int| va <= x < va + len ==> (#[trigger] self.spec_byte_at(x)).is_some()
    }

    /// The bytes that a read of `[va, va + len)` observes, where all of the
    /// range lies in resident pages.
    pub open spec fn spec_bytes_at(&self, va: int, len: int) -> Option<Seq<u8>> {
        if self.spec_range_resident(va, len) {
            Some(Seq::new(len as nat, |k: int| self.spec_byte_at(va + k).unwrap()))
        } else {
            None
        }
    }

    /// The byte at `va`, where `va` lies in a resident page of an area.
    pub fn peek(&self, va: usize) -> (r: Option<u8>)
        requires
            self.wf(),
        ensures
            r == self.spec_byte_at(va as int),
    {
        proof {
            lemma_find(self.owned_mem@, va as int, 0);
        }
        match self.find_area(va) {
            Some(idx) => {
                assert(self.owned_mem@[idx as int].wf());
                let a = &self.owned_mem[idx];
                let offset: usize = va - a.vaddr;
                if a.pages[offset / PAGE_SIZE_4K].is_some() {
                    Some(a.get_byte(offset))
                } else {
                    None
                }
            },
            None => None,
        }
    }

    /// Stores `byte` at `va`, which must lie in a resident page of an area.
    pub fn poke(&mut self, va: usize, byte: u8)
        requires
            old(self).wf(),
            old(self).spec_byte_at(va as int).is_some(),
        ensures
            final(self).wf(),
            final(self).kernel_regions() == old(self).kernel_regions(),
            final(self).spec_entry() == old(self).spec_entry(),
            final(self).spec_page_table() == old(self).spec_page_table(),
            same_shape(old(self).areas(), final(self).areas()),
            forall|x: int|
                #[trigger] final(self).spec_byte_at(x) == (if x == va {
                    Some(byte)
                } else {
                    old(self).spec_byte_at(x)
                }),
    {
        proof {
            lemma_find(self.owned_mem@, va as int, 0);
        }
        let idx: usize = self.find_area(va).unwrap();
        let ghost olds = self.owned_mem@;
        let ghost table = self.page_table@;
        assert(olds[idx as int].wf());
        assert(olds[idx as int].mapped_in(table));
        let offset: usize = va - self.owned_mem[idx].vaddr;
        self.owned_mem[idx].set_byte(offset, byte);
        proof {
            let news = self.owned_mem@;
            let a0 = olds[idx as int];
            let a1 = news[idx as int];
            assert forall|x: usize| #[trigger]
                page_in(x as int, a1.vaddr as int, a1.spec_size()) implies table.contains_key(x)
                && table[x] == a1.spec_entry(a1.slot_of(x as int)) by {
                assert(page_in(x as int, a0.vaddr as int, a0.spec_size()));
                let q = a1.slot_of(x as int);
                assert(a1.pages@[q].is_some() == a0.pages@[q].is_some());
            }
            lemma_update_area(olds, news, idx as int, self.kernel@, table, table);
            assert forall|i: int| 0 <= i < olds.len() implies {
                &&& (#[trigger] news[i]).vaddr == olds[i].vaddr
                &&& news[i].flags == olds[i].flags
                &&& news[i].backend == olds[i].backend
                &&& news[i].pages@.len() == olds[i].pages@.len()
                &&& forall|q: int|
                    0 <= q < olds[i].pages@.len() ==> {
                        &&& (#[trigger] news[i].pages@[q]).is_some() == olds[i].pages@[q].is_some()
                        &&& news[i].pages@[q].is_some() ==> news[i].pages@[q].unwrap().paddr()
                            == olds[i].pages@[q].unwrap().paddr()
                    }
            } by {
                if i != idx {
                    assert(news[i] == olds[i]);
                }
            }
            assert forall|x: int|
                #[trigger] self.spec_byte_at(x) == (if x == va {
                    Some(byte)
                } else {
                    old(self).spec_byte_at(x)
                }) by {
                lemma_find_shape(olds, news, x, 0);
                lemma_find(olds, x, 0);
                let i = spec_find(olds, x, 0);
                if i >= 0 {
                    if i == idx {
                        let k = x - a0.vaddr;
                        assert(a1.pages@[k / 4096].is_some() == a0.pages@[k / 4096].is_some());
                        if a0.resident(k / 4096) {
                            assert(a1.spec_byte(k) == (if k == offset {
                                byte
                            } else {
                                a0.spec_byte(k)
                            }));
                        }
                    } else {
                        assert(news[i] == olds[i]);
                    }
                }
            }
        }
    }

    /// Whether every address of `[va, va + len)` lies in a resident page.
    pub fn range_resident(&self, va: usize, len: usize) -> (r: bool)
        requires
            self.wf(),
        ensures
            r == self.spec_range_resident(va as int, len as int),
    {
        let mut k: usize = 0;
        while k < len
            invariant
                k <= len,
                self.wf(),
                va + k <= usize::MAX + 1,
                self.spec_range_resident(va as int, k as int),
            decreases len - k,
        {
            if k > usize::MAX - va {
                proof {
                    lemma_find(self.owned_mem@, va + k, 0);
                    let i = spec_find(self.owned_mem@, va + k, 0);
                    if i >= 0 {
                        assert(self.owned_mem@[i].wf());
                    }
                    assert(self.spec_byte_at(va + k).is_none());
                }
                return false;
            }
            if self.peek(va + k).is_none() {
                return false;
            }
            k += 1;
        }
        true
    }

    /// A copy of the `len` bytes from `va` on; `None` unless all of them lie
    /// in resident pages.
    pub fn read_bytes(&self, va: usize, len: usize) -> (r: Option<Vec<u8>>)
        requires
            self.wf(),
        ensures
            r.is_some() == self.spec_range_resident(va as int, len as int),
            r.is_some() ==> r.unwrap()@.len() == len && forall|k: int|
                0 <= k < len ==> Some(#[trigger] r.unwrap()@[k]) == self.spec_byte_at(va + k),
            match self.spec_bytes_at(va as int, len as int) {
                Some(bytes) => r.is_some() && r.unwrap()@ == bytes,
                None => r.is_none(),
            },
    {
        if !self.range_resident(va, len) {
            return None;
        }
        let mut out: Vec<u8> = Vec::new();
        let mut k: usize = 0;
        while k < len
            invariant
                k <= len,
                self.wf(),
                self.spec_range_resident(va as int, len as int),
                out@.len() == k,
                forall|j: int| 0 <= j < k ==> Some(#[trigger] out@[j]) == self.spec_byte_at(va + j),
            decreases len - k,
        {
            assert(self.spec_byte_at(va + k).is_some());
            proof {
                lemma_find(self.owned_mem@, va + k, 0);
                let i = spec_find(self.owned_mem@, va + k, 0);
                assert(self.owned_mem@[i].wf());
            }
            let b = self.peek(va + k).unwrap();
            out.push(b);
            k += 1;
        }
        assert(out@ =~= self.spec_bytes_at(va as int, len as int).unwrap());
        Some(out)
    }

    /// Stores `data` from `va` on, where all of `[va, va + data.len())` lies
    /// in resident pages; changes nothing and returns `false` where it does not.
    pub fn write_bytes(&mut self, va: usize, data: &[u8]) -> (r: bool)
        requires
            old(self).wf(),
        ensures
            final(self).wf(),
            final(self).kernel_regions() == old(self).kernel_regions(),
            final(self).spec_entry() == old(self).spec_entry(),
            final(self).spec_page_table() == old(self).spec_page_table(),
            r == old(self).spec_range_resident(va as int, data@.len() as int),
            !r ==> final(self).areas() == old(self).areas(),
            same_shape(old(self).areas(), final(self).areas()),
            r ==> forall|x: int|
                #[trigger] final(self).spec_byte_at(x) == (if va <= x < va + data@.len() {
                    Some(data@[x - va])
                } else {
                    old(self).spec_byte_at(x)
                }),
    {
        if !self.range_resident(va, data.len()) {
            return false;
        }
        let mut k: usize = 0;
        while k < data.len()
            invariant
                k <= data@.len(),
                self.wf(),
                self.kernel@ == old(self).kernel@,
                self.entry == old(self).entry,
                self.page_table == old(self).page_table,
                old(self).spec_range_resident(va as int, data@.len() as int),
                same_shape(old(self).areas(), self.areas()),
                forall|x: int|
                    #[trigger] self.spec_byte_at(x) == (if va <= x < va + k {
                        Some(data@[x - va])
                    } else {
                        old(self).spec_byte_at(x)
                    }),
            decreases data@.len() - k,
        {
            assert(old(self).spec_byte_at(va + k).is_some());
            assert(self.spec_byte_at(va + k).is_some());
            proof {
                lemma_find(self.owned_mem@, va + k, 0);
                let i = spec_find(self.owned_mem@, va + k, 0);
                assert(self.owned_mem@[i].wf());
            }
            let ghost before = *self;
            self.poke(va + k, data[k]);
            proof {
                assert forall|x: int|
                    #[trigger] self.spec_byte_at(x) == (if va <= x < va + k + 1 {
                        Some(data@[x - va])
                    } else {
                        old(self).spec_byte_at(x)
                    }) by {
                    assert(before.spec_byte_at(x) == (if va <= x < va + k {
                        Some(data@[x - va])
                    } else {
                        old(self).spec_byte_at(x)
                    }));
                }
            }
            k += 1;
        }
        true
    }

    /// Fills the slots of the area with index `idx`, all of which are empty,
    /// with copies of the resident pages of `src`, in fresh frames.
    pub fn copy_pages(&mut self, idx: usize, src: &MapArea, frames: &mut FrameAllocator)
        requires
            old(self).wf(),
            old(frames).wf(),
            src.wf(),
            idx < old(self).areas().len(),
            is_lazy_region(
                old(self).areas()[idx as int],
                src.vaddr as int,
                src.pages@.len() as int,
                src.flags,
                src.backend,
            ),
            old(frames).spec_free_frames() >= src.spec_resident_count(src.pages@.len() as int),
        ensures
            final(self).wf(),
            final(self).kernel_regions() == old(self).kernel_regions(),
            final(self).spec_entry() == old(self).spec_entry(),
            final(self).spec_page_table().root() == old(self).spec_page_table().root(),
            final(self).areas().len() == old(self).areas().len(),
            forall|j: int|
                0 <= j < old(self).areas().len() && j != idx ==> #[trigger] final(self).areas()[j]
                    == old(self).areas()[j],
            is_copy(final(self).areas()[idx as int], *src),
            copy_frames(final(self).areas()[idx as int], *src, old(frames).next_paddr() as int),
            final(frames).wf(),
            final(frames).end_paddr() == old(frames).end_paddr(),
            final(frames).returned() == old(frames).returned(),
            final(frames).next_paddr() == old(frames).next_paddr() + 4096 * src.spec_resident_count(
                src.pages@.len() as int,
            ),
    {
        let n: usize = src.pages.len();
        let mut q: usize = 0;
        while q < n
            invariant
                q <= n,
                n == src.pages@.len(),
                src.wf(),
                self.wf(),
                self.kernel@ == old(self).kernel@,
                self.entry == old(self).entry,
                self.page_table.root() == old(self).page_table.root(),
                self.owned_mem@.len() == old(self).owned_mem@.len(),
                idx < self.owned_mem@.len(),
                forall|j: int|
                    0 <= j < old(self).owned_mem@.len() && j != idx ==> #[trigger] self.owned_mem@[j]
                        == old(self).owned_mem@[j],
                self.owned_mem@[idx as int].vaddr == src.vaddr,
                self.owned_mem@[idx as int].flags == src.flags,
                self.owned_mem@[idx as int].backend == src.backend,
                self.owned_mem@[idx as int].pages@.len() == n,
                forall|j: int| q <= j < n ==> (#[trigger] self.owned_mem@[idx as int].pages@[j]).is_none(),
                forall|j: int|
                    0 <= j < q ==> {
                        &&& (#[trigger] self.owned_mem@[idx as int].pages@[j]).is_some()
                            == src.pages@[j].is_some()
                        &&& src.pages@[j].is_some() ==> self.owned_mem@[idx as int].pages@[j].unwrap().bytes()
                            == src.pages@[j].unwrap().bytes() && self.owned_mem@[idx as int].pages@[j].unwrap().paddr()
                            == old(frames).next_paddr() + 4096 * src.spec_resident_count(j)
                    },
                frames.wf(),
                frames.end_paddr() == old(frames).end_paddr(),
                frames.returned() == old(frames).returned(),
                frames.next_paddr() == old(frames).next_paddr() + 4096 * src.spec_resident_count(
                    q as int,
                ),
                old(frames).wf(),
                old(frames).spec_free_frames() >= src.spec_resident_count(n as int),
            decreases n - q,
        {
            proof {
                lemma_resident_count(*src, q as int + 1, n as int);
                lemma_resident_count(*src, 0, q as int);
            }
            match &src.pages[q] {
                Some(page) => {
                    assert(src.pages@[q as int].is_some());
                    assert(page.wf());
                    self.install_page(idx, q, page.as_slice(), frames);
                },
                None => {},
            }
            q += 1;
        }
    }

    /// An independent copy of the address space: the same kernel regions,
    /// and a copy of every area in which the resident pages are duplicated
    /// into fresh frames and the others stay to be brought in.
    pub fn clone_mapped(&self, frames: &mut FrameAllocator) -> (ms: Self)
        requires
            self.wf(),
            old(frames).wf(),
            old(frames).spec_free_frames() >= 1 + total_resident(
                self.areas(),
                self.areas().len() as int,
            ),
        ensures
            ms.wf(),
            ms.kernel_regions() == self.kernel_regions(),
            ms.spec_entry() == self.spec_entry(),
            ms.spec_page_table().root() == old(frames).next_paddr(),
            ms.areas().len() == self.areas().len(),
            forall|i: int|
                0 <= i < self.areas().len() ==> is_copy(#[trigger] ms.areas()[i], self.areas()[i]),
            forall|i: int|
                0 <= i < self.areas().len() ==> copy_frames(
                    #[trigger] ms.areas()[i],
                    self.areas()[i],
                    old(frames).next_paddr() + 4096 * (1 + total_resident(self.areas(), i)),
                ),
            final(frames).wf(),
            final(frames).end_paddr() == old(frames).end_paddr(),
            final(frames).returned() == old(frames).returned(),
            final(frames).next_paddr() == old(frames).next_paddr() + 4096 * (1 + total_resident(
                self.areas(),
                self.areas().len() as int,
            )),
    {
        let ghost srcs = self.owned_mem@;
        let ghost base = frames.next_paddr() as int;
        proof {
            lemma_total_resident(srcs, 0, srcs.len() as int);
        }
        let mut ms = MemorySet::new_with_kernel_mapped(self.kernel.as_slice(), frames);
        ms.entry = self.entry;
        let n: usize = self.owned_mem.len();
        let mut i: usize = 0;
        while i < n
            invariant
                i <= n,
                n == srcs.len(),
                srcs == self.owned_mem@,
                self.wf(),
                ms.wf(),
                ms.kernel@ == self.kernel@,
                ms.entry == self.entry,
                ms.page_table.root() == base,
                ms.owned_mem@.len() == i,
                forall|j: int| 0 <= j < i ==> is_copy(#[trigger] ms.owned_mem@[j], srcs[j]),
                forall|j: int|
                    0 <= j < i ==> copy_frames(
                        #[trigger] ms.owned_mem@[j],
                        srcs[j],
                        base + 4096 * (1 + total_resident(srcs, j)),
                    ),
                frames.wf(),
                frames.end_paddr() == old(frames).end_paddr(),
                frames.returned() == old(frames).returned(),
                base == old(frames).next_paddr(),
                frames.next_paddr() == base + 4096 * (1 + total_resident(srcs, i as int)),
                old(frames).wf(),
                old(frames).spec_free_frames() >= 1 + total_resident(srcs, n as int),
            decreases n - i,
        {
            let a = &self.owned_mem[i];
            let ghost before = ms.owned_mem@;
            proof {
                lemma_total_resident(srcs, i as int + 1, n as int);
                lemma_total_resident(srcs, 0, i as int);
                assert(srcs[i as int].wf());
                assert forall|j: int| 0 <= j < before.len() implies area_apart(
                    #[trigger] before[j],
                    a.vaddr as int,
                    a.spec_end_va(),
                ) by {
                    assert(is_copy(before[j], srcs[j]));
                    assert(area_apart(srcs[j], srcs[i as int].vaddr as int, srcs[i as int].spec_end_va()));
                }
                assert forall|r: int| 0 <= r < ms.kernel@.len() implies (#[trigger] ms.kernel@[r]).apart(
                    a.vaddr as int,
                    a.spec_end_va(),
                ) by {
                    assert(self.kernel@[r].apart(srcs[i as int].vaddr as int, srcs[i as int].spec_end_va()));
                }
            }
            ms.new_region(a.vaddr, a.size(), a.flags, None, a.backend, frames);
            let ghost mid = ms.owned_mem@;
            ms.copy_pages(i, a, frames);
            proof {
                assert forall|j: int| 0 <= j < i + 1 implies is_copy(#[trigger] ms.owned_mem@[j], srcs[j]) by {
                    if j < i {
                        assert(ms.owned_mem@[j] == mid[j]);
                        assert(mid[j] == before[j]);
                    }
                }
                assert forall|j: int| 0 <= j < i + 1 implies copy_frames(
                    #[trigger] ms.owned_mem@[j],
                    srcs[j],
                    base + 4096 * (1 + total_resident(srcs, j)),
                ) by {
                    if j < i {
                        assert(ms.owned_mem@[j] == mid[j]);
                        assert(mid[j] == before[j]);
                    }
                }
            }
            i += 1;
        }
        ms
    }
}

/// No two areas of an address space overlap: one of them ends where or
/// before the other starts.
pub proof fn lemma_areas_disjoint(ms: MemorySet, i: int, j: int)
    requires
        ms.wf(),
        0 <= i < ms.areas().len(),
        0 <= j < ms.areas().len(),
        i != j,
    ensures
        ms.areas()[i].spec_end_va() <= ms.areas()[j].vaddr || ms.areas()[j].spec_end_va()
            <= ms.areas()[i].vaddr,
{
    assert(area_apart(ms.areas()[i], ms.areas()[j].vaddr as int, ms.areas()[j].spec_end_va()));
}

/// The page table agrees with the areas: the page of every filled slot
/// resolves to the slot's physical page with exactly the permissions of the
/// area, and the page of every empty slot faults.
pub proof fn lemma_table_agrees(ms: MemorySet, i: int, q: int, offset: int)
    requires
        ms.wf(),
        0 <= i < ms.areas().len(),
        0 <= q < ms.areas()[i].pages@.len(),
        0 <= offset < 4096,
    ensures
        ms.table().contains_key((ms.areas()[i].vaddr + 4096 * q) as usize),
        ms.table()[(ms.areas()[i].vaddr + 4096 * q) as usize] == ms.areas()[i].spec_entry(q),
        ms.spec_page_table().spec_query((ms.areas()[i].vaddr + 4096 * q + offset) as usize) == (
        match ms.areas()[i].pages@[q] {
            Some(p) => Some(((p.paddr() + offset) as usize, ms.areas()[i].flags)),
            None => None,
        }),
{
    let a = ms.areas()[i];
    assert(a.wf());
    assert(a.mapped_in(ms.table()));
    let va = (a.vaddr + 4096 * q) as usize;
    assert(page_in(va as int, a.vaddr as int, a.spec_size()));
    assert(a.slot_of(va as int) == q);
    let x = (a.vaddr + 4096 * q + offset) as usize;
    assert(x - x % 4096 == va);
    if a.pages@[q].is_some() {
        assert(a.pages@[q].unwrap().wf());
    }
}

/// An address in a resident page can be read and written without a fault:
/// the table resolves it to its byte of the physical page, with the
/// permissions of the area.
pub proof fn lemma_resident_no_fault(ms: MemorySet, va: usize)
    requires
        ms.wf(),
        ms.spec_byte_at(va as int).is_some(),
    ensures
        ms.spec_area_of(va as int) >= 0,
        ({
            let a = ms.areas()[ms.spec_area_of(va as int)];
            let p = a.pages@[a.slot_of(va as int)].unwrap();
            ms.spec_page_table().spec_query(va) == Some(
                ((p.paddr() + va % 4096) as usize, a.flags),
            )
        }),
{
    lemma_find(ms.areas(), va as int, 0);
    let i = ms.spec_area_of(va as int);
    let a = ms.areas()[i];
    assert(a.wf());
    let q = a.slot_of(va as int);
    lemma_table_agrees(ms, i, q, (va % 4096) as int);
    assert(a.vaddr + 4096 * q + va % 4096 == va);
}

/// A piece that a split leaves of an area holds, in every page that was
/// resident in the area, the bytes that the area held there.
pub proof fn lemma_piece_keeps_bytes(
    p: MapArea,
    a: MapArea,
    lo: int,
    hi: int,
    files: Seq<Seq<u8>>,
    base: int,
    k: int,
)
    requires
        is_piece(p, a, lo, hi, files, base),
        a.vaddr <= lo,
        hi <= a.spec_end_va(),
        0 <= k < hi - lo,
        a.resident((k + lo - a.vaddr) / 4096),
    ensures
        p.spec_byte(k) == a.spec_byte(k + lo - a.vaddr),
        p.resident(k / 4096),
{
    reveal(is_piece);
    assert(p.spec_byte(k) == a.spec_bytes(files)[k + lo - a.vaddr]);
    assert(p.pages@[k / 4096].is_some());
}

impl MemorySet {
    /// Whether `[start, end)` lies apart from every kernel region.
    pub fn kernel_apart_from(&self, start: usize, end: usize) -> (r: bool)
        requires
            self.wf(),
        ensures
            r == (forall|q: int|
                0 <= q < self.kernel_regions().len() ==> (#[trigger] self.kernel_regions()[q]).apart(
                    start as int,
                    end as int,
                )),
    {
        let mut r: usize = 0;
        while r < self.kernel.len()
            invariant
                r <= self.kernel@.len(),
                kernel_ok(self.kernel@),
                forall|q: int| 0 <= q < r ==> (#[trigger] self.kernel@[q]).apart(start as int, end as int),
            decreases self.kernel@.len() - r,
        {
            assert(self.kernel@[r as int].ok());
            let region = &self.kernel[r];
            if !(region.vaddr + region.size <= start || end <= region.vaddr) {
                assert(!self.kernel_regions()[r as int].apart(start as int, end as int));
                return false;
            }
            r += 1;
        }
        true
    }

    /// Number of frames that freeing `[start, end)` takes, or the largest
    /// number where there are more.
    pub fn split_frames(&self, start: usize, end: usize) -> (n: usize)
        requires
            self.wf(),
            start <= end,
        ensures
            n == split_pages(self.areas(), start as int, end as int, self.areas().len() as int) || (
            n == usize::MAX && split_pages(
                self.areas(),
                start as int,
                end as int,
                self.areas().len() as int,
            ) >= usize::MAX),
    {
        let mut n: usize = 0;
        let mut i: usize = 0;
        while i < self.owned_mem.len()
            invariant
                i <= self.owned_mem@.len(),
                start <= end,
                areas_wf(self.owned_mem@),
                n == split_pages(self.owned_mem@, start as int, end as int, i as int) || (n
                    == usize::MAX && split_pages(self.owned_mem@, start as int, end as int, i as int)
                    >= usize::MAX),
            decreases self.owned_mem@.len() - i,
        {
            assert(self.owned_mem@[i as int].wf());
            let a = &self.owned_mem[i];
            let mut add: usize = 0;
            if a.overlap_with(start, end) {
                if a.vaddr < start {
                    add = (start - a.vaddr) / PAGE_SIZE_4K;
                }
                let area_end: usize = a.end_va();
                if end < area_end {
                    add = add + (area_end - end) / PAGE_SIZE_4K;
                }
            }
            proof {
                lemma_split_counts(self.owned_mem@, start as int, end as int, 0, i as int);
            }
            n = if add > usize::MAX - n {
                usize::MAX
            } else {
                n + add
            };
            i += 1;
        }
        n
    }

    /// Whether `mmap` can place the mapping: see `mmap_admissible`.
    pub fn mmap_check(
        &self,
        start: usize,
        size: usize,
        fixed: bool,
        backend: Option<MemBackend>,
        nfiles: usize,
        free_frames: usize,
    ) -> (r: bool)
        requires
            self.wf(),
            free_frames < usize::MAX,
        ensures
            r == (size + 4096 <= usize::MAX && self.mmap_admissible(
                start as int,
                size as int,
                fixed,
                backend,
                nfiles as int,
                free_frames as int,
            )),
    {
        if size >= usize::MAX - 4095 {
            return false;
        }
        proof {
            lemma_align_4k(size as int);
            lemma_max_end(self.owned_mem@, self.owned_mem@.len() as int);
            assert(isize::MAX < usize::MAX - 8191) by {
                assert(usize::MAX == 0xffff_ffff || usize::MAX == 0xffff_ffff_ffff_ffff);
                assert(isize::MAX == 0x7fff_ffff || isize::MAX == 0x7fff_ffff_ffff_ffff);
                assert(usize::MAX == 0xffff_ffff <==> isize::MAX == 0x7fff_ffff);
            }
        }
        let len: usize = memory_addr::align_up_4k(size);
        let at: usize = if fixed {
            start
        } else {
            let top: usize = self.max_va();
            if top >= usize::MAX - 4096 - 4095 {
                proof {
                    lemma_align_4k(top + 4096);
                }
                return false;
            }
            proof {
                lemma_align_4k(top + 4096);
            }
            memory_addr::align_up_4k(top + PAGE_SIZE_4K)
        };
        if !memory_addr::is_aligned_4k(at) {
            return false;
        }
        if at > isize::MAX as usize || len > isize::MAX as usize - at {
            return false;
        }
        if !self.kernel_apart_from(at, at + len) {
            return false;
        }
        match backend {
            Some(b) => {
                if b.file >= nfiles || b.cursor > (usize::MAX - len) as u64 {
                    return false;
                }
            },
            None => {},
        }
        if fixed {
            let needed = self.split_frames(at, at + len);
            if free_frames < needed {
                return false;
            }
        }
        true
    }

    /// Whether `munmap` can free `[start, start + size)`: the start is
    /// page-aligned, the size lies at least a page below the top of the
    /// address space, the range lies in the address space, and there are
    /// frames for what is split off.
    pub open spec fn munmap_admissible(&self, start: int, size: int, free_frames: int) -> bool {
        &&& start % 4096 == 0
        &&& size + 4096 <= usize::MAX
        &&& start + spec_align_up_4k(size) <= usize::MAX
        &&& free_frames >= split_pages(
            self.areas(),
            start,
            start + spec_align_up_4k(size),
            self.areas().len() as int,
        )
    }

    /// Whether `munmap` can free the range: see `munmap_admissible`.
    pub fn munmap_check(&self, start: usize, size: usize, free_frames: usize) -> (r: bool)
        requires
            self.wf(),
            free_frames < usize::MAX,
        ensures
            r == self.munmap_admissible(start as int, size as int, free_frames as int),
    {
        proof {
            lemma_align_4k(size as int);
        }
        if !memory_addr::is_aligned_4k(start) {
            return false;
        }
        if size >= usize::MAX - 4095 {
            assert(spec_align_up_4k(size as int) >= size);
            return false;
        }
        let len: usize = memory_addr::align_up_4k(size);
        if len > usize::MAX - start {
            return false;
        }
        let needed = self.split_frames(start, start + len);
        free_frames >= needed
    }

    /// Number of resident pages in all areas, or the largest number where
    /// there are more.
    pub fn resident_pages(&self) -> (n: usize)
        requires
            self.wf(),
        ensures
            n == total_resident(self.areas(), self.areas().len() as int) || (n == usize::MAX
                && total_resident(self.areas(), self.areas().len() as int) >= usize::MAX),
    {
        let mut n: usize = 0;
        let mut i: usize = 0;
        while i < self.owned_mem.len()
            invariant
                i <= self.owned_mem@.len(),
                n == total_resident(self.owned_mem@, i as int) || (n == usize::MAX
                    && total_resident(self.owned_mem@, i as int) >= usize::MAX),
            decreases self.owned_mem@.len() - i,
        {
            let add: usize = self.owned_mem[i].resident_count();
            proof {
                lemma_total_resident(self.owned_mem@, 0, i as int);
                lemma_resident_count(self.owned_mem@[i as int], 0, self.owned_mem@[i as int].pages@.len() as int);
            }
            n = if add > usize::MAX - n {
                usize::MAX
            } else {
                n + add
            };
            i += 1;
        }
        n
    }

    /// Whether a page fault at `addr` for an access of kind `flags` can be
    /// resolved: an area covers the address and permits the access, and the
    /// page is not resident.
    pub open spec fn fault_resolvable(&self, addr: int, flags: MappingFlags) -> bool {
        &&& self.spec_area_of(addr) >= 0
        &&& self.areas()[self.spec_area_of(addr)].flags.spec_contains(flags)
        &&& !self.areas()[self.spec_area_of(addr)].resident(
            self.areas()[self.spec_area_of(addr)].slot_of(addr),
        )
    }

    /// Whether a page fault at `addr` can be resolved: see `fault_resolvable`.
    pub fn fault_check(&self, addr: usize, flags: MappingFlags) -> (r: bool)
        requires
            self.wf(),
        ensures
            r == self.fault_resolvable(addr as int, flags),
    {
        proof {
            lemma_find(self.owned_mem@, addr as int, 0);
        }
        match self.find_area(addr) {
            Some(idx) => {
                assert(self.owned_mem@[idx as int].wf());
                let a = &self.owned_mem[idx];
                a.flags.contains(flags) && a.pages[(addr - a.vaddr) / PAGE_SIZE_4K].is_none()
            },
            None => false,
        }
    }
}

/// In an address space, the area that covers an address is the one that
/// `spec_find` finds: no other area covers the address.
pub proof fn lemma_find_unique(ms: MemorySet, k: int, x: int)
    requires
        ms.wf(),
        0 <= k < ms.areas().len(),
        ms.areas()[k].covers(x),
    ensures
        ms.spec_area_of(x) == k,
{
    lemma_find(ms.areas(), x, 0);
    let i = ms.spec_area_of(x);
    if i != k {
        assert(area_apart(ms.areas()[i], ms.areas()[k].vaddr as int, ms.areas()[k].spec_end_va()));
    }
}

/// Once a page fault at `addr` is resolved, the whole page of `addr` is
/// resident: every address of the page can be read and written without a
/// fault, and the table resolves it to the new frame with the permissions
/// of the area.
pub proof fn lemma_fault_makes_resident(
    pre: MemorySet,
    post: MemorySet,
    addr: usize,
    files: Seq<Seq<u8>>,
    paddr: int,
    x: usize,
)
    requires
        pre.wf(),
        post.wf(),
        pre.spec_area_of(addr as int) >= 0,
        page_fault_post(pre.areas(), post.areas(), addr as int, files, paddr),
        addr - addr % 4096 <= x < addr - addr % 4096 + 4096,
    ensures
        post.spec_byte_at(x as int).is_some(),
        post.spec_page_table().spec_query(x) == Some(
            ((paddr + x % 4096) as usize, pre.areas()[pre.spec_area_of(addr as int)].flags),
        ),
{
    lemma_find(pre.areas(), addr as int, 0);
    let idx = pre.spec_area_of(addr as int);
    let before = pre.areas()[idx];
    let after = post.areas()[idx];
    assert(before.wf());
    assert(after.wf());
    let slot = before.slot_of(addr as int);
    assert(after.covers(x as int));
    assert(after.slot_of(x as int) == slot);
    lemma_find_unique(post, idx, x as int);
    lemma_resident_no_fault(post, x);
}

/// Every place among the areas that a split keeps, and every place among
/// its pieces, belongs to one of the areas that were looked at.
pub proof fn lemma_split_origin(areas: Seq<MapArea>, start: int, end: int, upto: int, k: int)
    requires
        0 <= upto <= areas.len(),
    ensures
        0 <= k < count_kept(areas, start, end, upto) ==> exists|j: int|
            0 <= j < upto && !areas[j].spec_overlap_with(start, end) && #[trigger] count_kept(
                areas,
                start,
                end,
                j,
            ) == k,
        0 <= k < count_pieces(areas, start, end, upto) ==> exists|j: int|
            0 <= j < upto && ((has_left(areas[j], start, end) && #[trigger] count_pieces(
                areas,
                start,
                end,
                j,
            ) == k) || (has_right(areas[j], start, end) && count_pieces(areas, start, end, j) + (
            if has_left(areas[j], start, end) {
                1int
            } else {
                0int
            }) == k)),
    decreases upto,
{
    if upto > 0 {
        lemma_split_origin(areas, start, end, upto - 1, k);
        let last = upto - 1;
        if 0 <= k < count_kept(areas, start, end, upto) {
            if k < count_kept(areas, start, end, last) {
                let j = choose|j: int|
                    0 <= j < last && !areas[j].spec_overlap_with(start, end) && #[trigger] count_kept(
                        areas,
                        start,
                        end,
                        j,
                    ) == k;
                assert(0 <= j < upto && !areas[j].spec_overlap_with(start, end) && count_kept(
                    areas,
                    start,
                    end,
                    j,
                ) == k);
            } else {
                assert(!areas[last].spec_overlap_with(start, end) && count_kept(areas, start, end, last) == k);
            }
        }
        if 0 <= k < count_pieces(areas, start, end, upto) {
            if k < count_pieces(areas, start, end, last) {
                let j = choose|j: int|
                    0 <= j < last && ((has_left(areas[j], start, end) && #[trigger] count_pieces(
                        areas,
                        start,
                        end,
                        j,
                    ) == k) || (has_right(areas[j], start, end) && count_pieces(areas, start, end, j) + (
                    if has_left(areas[j], start, end) {
                        1int
                    } else {
                        0int
                    }) == k));
                assert(0 <= j < upto && ((has_left(areas[j], start, end) && count_pieces(
                    areas,
                    start,
                    end,
                    j,
                ) == k) || (has_right(areas[j], start, end) && count_pieces(areas, start, end, j) + (
                if has_left(areas[j], start, end) {
                    1int
                } else {
                    0int
                }) == k)));
            } else {
                let at = count_pieces(areas, start, end, last);
                assert((has_left(areas[last], start, end) && at == k) || (has_right(
                    areas[last],
                    start,
                    end,
                ) && at + (if has_left(areas[last], start, end) {
                    1int
                } else {
                    0int
                }) == k));
            }
        }
    }
}

/// Freeing a range keeps what lies outside it: an address outside
/// `[start, end)` that an area covered is covered by an area afterwards,
/// with the same permissions.
pub proof fn lemma_split_keeps_cover(
    olds: Seq<MapArea>,
    news: Seq<MapArea>,
    start: int,
    end: int,
    files: Seq<Seq<u8>>,
    base: int,
    j: int,
    x: int,
)
    requires
        areas_wf(olds),
        start <= end,
        split_post(olds, news, start, end, files, base),
        0 <= j < olds.len(),
        olds[j].covers(x),
        !(start <= x < end),
    ensures
        exists|k: int| 0 <= k < news.len() && (#[trigger] news[k]).covers(x) && news[k].flags == olds[j].flags,
{
    let n = olds.len() as int;
    let a = olds[j];
    assert(a.wf());
    lemma_split_counts(olds, start, end, j, n);
    lemma_split_counts(olds, start, end, j + 1, n);
    lemma_split_counts(olds, start, end, j, j + 1);
    lemma_split_counts(olds, start, end, 0, j);
    let kept = count_kept(olds, start, end, n);
    reveal(is_piece);
    if !a.spec_overlap_with(start, end) {
        let k = count_kept(olds, start, end, j);
        assert(news[k] == a);
        assert(0 <= k < news.len() && news[k].covers(x) && news[k].flags == a.flags);
    } else if x < start {
        assert(has_left(a, start, end));
        let k = kept + count_pieces(olds, start, end, j);
        assert(is_piece(
            news[k],
            a,
            a.vaddr as int,
            start,
            files_after_split(olds, start, end, j, files),
            base + 4096 * split_pages(olds, start, end, j),
        ));
        assert(0 <= k < news.len() && news[k].covers(x) && news[k].flags == a.flags);
    } else {
        assert(has_right(a, start, end));
        let k = kept + count_pieces(olds, start, end, j) + (if has_left(a, start, end) {
            1int
        } else {
            0int
        });
        assert(is_piece(
            news[k],
            a,
            end,
            a.spec_end_va(),
            files_after_split(olds, start, end, j, files),
            base + 4096 * (split_pages(olds, start, end, j) + left_pages(a, start, end)),
        ));
        assert(0 <= k < news.len() && news[k].covers(x) && news[k].flags == a.flags);
    }
}

/// Freeing a range adds nothing: an address that an area covers afterwards
/// lies outside `[start, end)` and was covered by an area before, with the
/// same permissions. With `lemma_split_keeps_cover`: what the areas cover
/// afterwards is what they covered before without the range.
pub proof fn lemma_split_adds_none(
    olds: Seq<MapArea>,
    news: Seq<MapArea>,
    start: int,
    end: int,
    files: Seq<Seq<u8>>,
    base: int,
    k: int,
    x: int,
)
    requires
        areas_wf(olds),
        start <= end,
        split_post(olds, news, start, end, files, base),
        0 <= k < news.len(),
        news[k].covers(x),
    ensures
        !(start <= x < end),
        exists|j: int| 0 <= j < olds.len() && (#[trigger] olds[j]).covers(x) && olds[j].flags == news[k].flags,
{
    let n = olds.len() as int;
    let kept = count_kept(olds, start, end, n);
    assert(area_apart(news[k], start, end));
    lemma_split_counts(olds, start, end, n, n);
    lemma_split_origin(olds, start, end, n, k);
    lemma_split_origin(olds, start, end, n, k - kept);
    reveal(is_piece);
    if k < kept {
        let j = choose|j: int|
            0 <= j < n && !olds[j].spec_overlap_with(start, end) && #[trigger] count_kept(
                olds,
                start,
                end,
                j,
            ) == k;
        assert(news[k] == olds[j]);
        assert(olds[j].covers(x) && olds[j].flags == news[k].flags);
    } else {
        let p = k - kept;
        let j = choose|j: int|
            0 <= j < n && ((has_left(olds[j], start, end) && #[trigger] count_pieces(
                olds,
                start,
                end,
                j,
            ) == p) || (has_right(olds[j], start, end) && count_pieces(olds, start, end, j) + (
            if has_left(olds[j], start, end) {
                1int
            } else {
                0int
            }) == p));
        let a = olds[j];
        assert(a.wf());
        if has_left(a, start, end) && count_pieces(olds, start, end, j) == p {
            assert(is_piece(
                news[kept + count_pieces(olds, start, end, j)],
                a,
                a.vaddr as int,
                start,
                files_after_split(olds, start, end, j, files),
                base + 4096 * split_pages(olds, start, end, j),
            ));
        } else {
            assert(is_piece(
                news[kept + count_pieces(olds, start, end, j) + (if has_left(a, start, end) {
                    1int
                } else {
                    0int
                })],
                a,
                end,
                a.spec_end_va(),
                files_after_split(olds, start, end, j, files),
                base + 4096 * (split_pages(olds, start, end, j) + left_pages(a, start, end)),
            ));
        }
        assert(olds[j].covers(x) && olds[j].flags == news[k].flags);
    }
}

/// What `munmap` leaves mapped stays whole: an address outside the range
/// that an area covered lies in exactly one area afterwards, which has the
/// same permissions; and an address in the range lies in none.
pub proof fn lemma_munmap_keeps_cover(
    pre: MemorySet,
    post: MemorySet,
    start: usize,
    size: usize,
    pre_files: Seq<Seq<u8>>,
    post_files: Seq<Seq<u8>>,
    pre_pool: FrameAllocator,
    post_pool: FrameAllocator,
    x: int,
)
    requires
        pre.wf(),
        post.wf(),
        munmap_post(pre, post, start, size, pre_files, post_files, pre_pool, post_pool),
    ensures
        start <= x < start + spec_align_up_4k(size as int) ==> post.spec_area_of(x) < 0,
        !(start <= x < start + spec_align_up_4k(size as int)) ==> (post.spec_area_of(x) >= 0)
            == (pre.spec_area_of(x) >= 0),
        !(start <= x < start + spec_align_up_4k(size as int)) && pre.spec_area_of(x) >= 0
            ==> post.areas()[post.spec_area_of(x)].flags == pre.areas()[pre.spec_area_of(x)].flags,
{
    let s = start as int;
    let e = start + spec_align_up_4k(size as int);
    lemma_align_4k(size as int);
    lemma_find(pre.areas(), x, 0);
    lemma_find(post.areas(), x, 0);
    let base = pre_pool.next_paddr() as int;
    if post.spec_area_of(x) >= 0 {
        let k = post.spec_area_of(x);
        lemma_split_adds_none(pre.areas(), post.areas(), s, e, pre_files, base, k, x);
        let j = choose|j: int|
            0 <= j < pre.areas().len() && (#[trigger] pre.areas()[j]).covers(x) && pre.areas()[j].flags
                == post.areas()[k].flags;
        lemma_find_unique(pre, j, x);
    }
    if !(s <= x < e) && pre.spec_area_of(x) >= 0 {
        let j = pre.spec_area_of(x);
        lemma_split_keeps_cover(pre.areas(), post.areas(), s, e, pre_files, base, j, x);
        let k = choose|k: int|
            0 <= k < post.areas().len() && (#[trigger] post.areas()[k]).covers(x) && post.areas()[k].flags
                == pre.areas()[j].flags;
        lemma_find_unique(post, k, x);
    }
}

/// A mapping that `mmap` places lies apart from every other area: the last
/// area is the new one, it starts at the result and spans the size rounded
/// up to whole pages, and no other area overlaps it.
pub proof fn lemma_mmap_lies_apart(
    pre: MemorySet,
    post: MemorySet,
    start: usize,
    size: usize,
    flags: MappingFlags,
    fixed: bool,
    backend: Option<MemBackend>,
    pre_files: Seq<Seq<u8>>,
    post_files: Seq<Seq<u8>>,
    pre_pool: FrameAllocator,
    post_pool: FrameAllocator,
    r: isize,
    i: int,
)
    requires
        post.wf(),
        !(fixed && start == 0),
        mmap_post(pre, post, start, size, flags, fixed, backend, pre_files, post_files, pre_pool, post_pool, r),
        0 <= i < post.areas().len() - 1,
    ensures
        post.areas().last().vaddr == r,
        post.areas().last().spec_end_va() == r + spec_align_up_4k(size as int),
        post.areas()[i].spec_end_va() <= r || r + spec_align_up_4k(size as int) <= post.areas()[i].vaddr,
{
    lemma_align_4k(size as int);
    lemma_areas_disjoint(post, i, post.areas().len() - 1);
}

/// What stays mapped when a range is unmapped keeps its bytes: an address
/// outside the range whose page was resident before reads the same byte
/// afterwards.
pub proof fn lemma_munmap_keeps_bytes(
    pre: MemorySet,
    post: MemorySet,
    start: usize,
    size: usize,
    pre_files: Seq<Seq<u8>>,
    post_files: Seq<Seq<u8>>,
    pre_pool: FrameAllocator,
    post_pool: FrameAllocator,
    x: int,
)
    requires
        pre.wf(),
        post.wf(),
        start as int % 4096 == 0,
        munmap_post(pre, post, start, size, pre_files, post_files, pre_pool, post_pool),
        !(start <= x < start + spec_align_up_4k(size as int)),
        pre.spec_byte_at(x).is_some(),
    ensures
        post.spec_byte_at(x) == pre.spec_byte_at(x),
{
    let s = start as int;
    let e = start + spec_align_up_4k(size as int);
    lemma_align_4k(size as int);
    let olds = pre.areas();
    let news = post.areas();
    let n = olds.len() as int;
    lemma_find(olds, x, 0);
    let i = pre.spec_area_of(x);
    let a = olds[i];
    assert(a.wf());
    lemma_split_counts(olds, s, e, i, n);
    lemma_split_counts(olds, s, e, i + 1, n);
    lemma_split_counts(olds, s, e, i, i + 1);
    lemma_split_counts(olds, s, e, 0, i);
    let kept = count_kept(olds, s, e, n);
    if !a.spec_overlap_with(s, e) {
        let k = count_kept(olds, s, e, i);
        assert(news[k] == a);
        lemma_find_unique(post, k, x);
    } else if x < s {
        assert(has_left(a, s, e));
        let k = kept + count_pieces(olds, s, e, i);
        let files = files_after_split(olds, s, e, i, pre_files);
        let base = pre_pool.next_paddr() as int + 4096 * split_pages(olds, s, e, i);
        assert(is_piece(news[k], a, a.vaddr as int, s, files, base));
        lemma_piece_keeps_bytes(news[k], a, a.vaddr as int, s, files, base, x - a.vaddr);
        reveal(is_piece);
        assert(news[k].wf());
        assert(news[k].covers(x));
        lemma_find_unique(post, k, x);
    } else {
        assert(has_right(a, s, e));
        let k = kept + count_pieces(olds, s, e, i) + (if has_left(a, s, e) {
            1int
        } else {
            0int
        });
        let files = files_after_split(olds, s, e, i, pre_files);
        let base = pre_pool.next_paddr() as int + 4096 * (split_pages(olds, s, e, i) + left_pages(a, s, e));
        assert(is_piece(news[k], a, e, a.spec_end_va(), files, base));
        lemma_piece_keeps_bytes(news[k], a, e, a.spec_end_va(), files, base, x - e);
        reveal(is_piece);
        assert(news[k].wf());
        assert(news[k].covers(x));
        lemma_find_unique(post, k, x);
        assert((x - e + e - a.vaddr) / 4096 == (x - a.vaddr) / 4096);
    }
}

/// What the stored files hold once the first `upto` areas have been written
/// back, in order.
pub open spec fn files_after_release(areas: Seq<MapArea>, upto: int, files: Seq<Seq<u8>>) -> Seq<
    Seq<u8>,
>
    decreases upto,
{
    if upto <= 0 {
        files
    } else {
        areas[upto - 1].synced_all(files_after_release(areas, upto - 1, files))
    }
}

/// Writing areas back changes no file's number.
pub proof fn lemma_files_after_release_len(areas: Seq<MapArea>, upto: int, files: Seq<Seq<u8>>)
    ensures
        files_after_release(areas, upto, files).len() == files.len(),
    decreases upto,
{
    if upto > 0 {
        lemma_files_after_release_len(areas, upto - 1, files);
        areas[upto - 1].lemma_synced_len(
            areas[upto - 1].pages@.len() as int,
            files_after_release(areas, upto - 1, files),
        );
    }
}

impl MemorySet {
    /// Gives up all areas, as happens when the last task that refers to the
    /// address space is gone: each area is unmapped and written back to its
    /// file, and its frames go back to the pool, area by area. The kernel
    /// regions stay mapped.
    pub fn release(&mut self, frames: &mut FrameAllocator, fs: &mut FileSystem)
        requires
            old(self).wf(),
            old(frames).wf(),
            areas_backed(old(self).areas(), old(fs).files().len() as int),
        ensures
            final(self).wf(),
            final(self).areas().len() == 0,
            final(self).kernel_regions() == old(self).kernel_regions(),
            final(self).spec_entry() == old(self).spec_entry(),
            final(self).spec_page_table().root() == old(self).spec_page_table().root(),
            final(fs).open@ == old(fs).open@,
            final(fs).paths() == old(fs).paths(),
            final(fs).files() == files_after_release(
                old(self).areas(),
                old(self).areas().len() as int,
                old(fs).files(),
            ),
            final(frames).wf(),
            final(frames).next_paddr() == old(frames).next_paddr(),
            final(frames).end_paddr() == old(frames).end_paddr(),
            final(frames).returned() == old(frames).returned() + frames_of(
                old(self).areas(),
                old(self).areas().len() as int,
            ),
    {
        let ghost olds = self.owned_mem@;
        let ghost files0 = fs.files();
        let n: usize = self.owned_mem.len();
        let mut k: usize = 0;
        while k < n
            invariant
                k <= n,
                n == olds.len(),
                self.wf(),
                self.owned_mem@ == olds.subrange(k as int, n as int),
                areas_backed(olds, files0.len() as int),
                self.kernel@ == old(self).kernel@,
                self.entry == old(self).entry,
                self.page_table.root() == old(self).page_table.root(),
                fs.open@ == old(fs).open@,
                fs.paths() == old(fs).paths(),
                fs.files() == files_after_release(olds, k as int, files0),
                frames.wf(),
                frames.next_paddr() == old(frames).next_paddr(),
                frames.end_paddr() == old(frames).end_paddr(),
                frames.returned() == old(frames).returned() + frames_of(olds, k as int),
            decreases n - k,
        {
            proof {
                lemma_files_after_release_len(olds, k as int, files0);
                assert(self.owned_mem@[0] == olds[k as int]);
                assert(olds[k as int].backed_by(files0.len() as int));
            }
            let area = self.take_area(0);
            assert(area.wf());
            area.sync_all(fs);
            area.release_pages(frames);
            assert(frames.returned() =~= old(frames).returned() + frames_of(olds, k + 1));
            assert(self.owned_mem@ =~= olds.subrange(k + 1, n as int));
            k += 1;
        }
    }
}

} // verus!
